use dd3::text::{
    dec_string, find_char, join_strings, min_string, parse_i64, parse_u16, push_repeat, push_utf8,
    str_contains, str_starts_with, take_chars, trim_start_char,
};

#[test]
fn parse_u16_matches_std_parse() {
    for s in ["0", "80", "65535", "65536", "+7", "+", "-1", "", "007", "1a", " 1", "99999999999999999999"] {
        assert_eq!(parse_u16(s), s.parse::<u16>().ok(), "input {s:?}");
    }
}

#[test]
fn parse_i64_matches_std_parse() {
    for s in [
        "0",
        "-0",
        "137",
        "-1",
        "+42",
        "-",
        "+",
        "",
        "9223372036854775807",
        "9223372036854775808",
        "-9223372036854775808",
        "-9223372036854775809",
        "12x",
    ] {
        assert_eq!(parse_i64(s), s.parse::<i64>().ok(), "input {s:?}");
    }
}

#[test]
fn find_char_finds_first_occurrence() {
    assert_eq!(find_char("80/tcp/x", '/'), Some(2));
    assert_eq!(find_char("80", '/'), None);
    assert_eq!(find_char("", '/'), None);
}

#[test]
fn small_string_helpers() {
    assert_eq!(trim_start_char("///a/b", '/'), "a/b");
    assert_eq!(take_chars("h\u{e9}llo", 2), "h\u{e9}");
    assert_eq!(take_chars("hi", 5), "hi");
    assert_eq!(dec_string(0), "0");
    assert_eq!(dec_string(18446744073709551615), "18446744073709551615");
    assert_eq!(min_string(&vec!["b".to_string(), "a".to_string(), "ab".to_string()]), "a");
    assert_eq!(join_strings(&vec!["x".to_string(), "y".to_string()], ", "), "x, y");
    assert_eq!(join_strings(&Vec::new(), ", "), "");
    assert!(str_contains("xterm-kitty", "kitty"));
    assert!(!str_contains("xterm", "kitty"));
    assert!(str_starts_with("alacritty-direct", "alacritty"));
    let mut s = String::from("-");
    push_repeat(&mut s, "ab", 3);
    assert_eq!(s, "-ababab");
    let mut out = vec![1u8];
    push_utf8(&mut out, "\u{e9}");
    assert_eq!(out, vec![1, 0xc3, 0xa9]);
}

#[test]
fn white_space_matches_char_is_whitespace() {
    for u in 0u32..=0x10FFFF {
        if let Some(c) = char::from_u32(u) {
            let t = c.to_string();
            let trimmed = dd3::text::trim_str(&t);
            assert_eq!(trimmed.is_empty(), c.is_whitespace(), "U+{u:04X}");
        }
    }
}
