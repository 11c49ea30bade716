use shh::text::{chars_of, decimal_i32, decimal_string, decimal_u64, join, parse_u16, split_chars, split_words, trim, trim_chars};

#[test]
fn trim_removes_unicode_white_space_at_both_ends() {
    assert_eq!(trim("  hello \t\n"), "hello");
    assert_eq!(trim("\u{3000}x y\u{a0}"), "x y");
    assert_eq!(trim("   "), "");
    assert_eq!(trim(""), "");
    assert_eq!(trim("a"), "a");
    let v: Vec<char> = " ab ".chars().collect();
    assert_eq!(trim_chars(&v), vec!['a', 'b']);
}

#[test]
fn parse_u16_reads_like_str_parse() {
    for s in ["0", "22", "+5", "65535", "00080", "65536", "-1", "", "+", "12a", " 1", "1 ", "99999999999"] {
        assert_eq!(parse_u16(s), s.parse::<u16>().ok(), "input {:?}", s);
    }
}

#[test]
fn decimal_writes_like_to_string() {
    for n in [0u16, 7, 10, 22, 443, 65535] {
        assert_eq!(decimal_string(n), n.to_string());
        assert_eq!(parse_u16(&decimal_string(n)), Some(n));
    }
    assert_eq!(decimal_u64(u64::MAX), u64::MAX.to_string());
    for n in [0i32, 1, -1, 255, -255, i32::MIN, i32::MAX] {
        assert_eq!(decimal_i32(n), n.to_string());
    }
}

#[test]
fn join_puts_separator_between_parts() {
    let parts = vec!["a".to_string(), "b".to_string(), "c".to_string()];
    assert_eq!(join(&parts, ", "), "a, b, c");
    assert_eq!(join(&Vec::new(), ", "), "");
    assert_eq!(join(&vec!["x".to_string()], ", "), "x");
}

#[test]
fn split_words_matches_split_whitespace() {
    for s in ["-A -L 8080:localhost:8080", "  -J  jump.example.com\t-o X=1 ", "", "   ", "one"] {
        let got: Vec<String> = split_words(&chars_of(s)).into_iter().map(|w| w.into_iter().collect()).collect();
        let want: Vec<String> = s.split_whitespace().map(|w| w.to_string()).collect();
        assert_eq!(got, want, "input {:?}", s);
    }
}

#[test]
fn split_chars_keeps_empty_pieces() {
    let got: Vec<String> = split_chars(&chars_of("a,,b,"), ',').into_iter().map(|w| w.into_iter().collect()).collect();
    assert_eq!(got, vec!["a", "", "b", ""]);
    let got: Vec<String> = split_chars(&chars_of(""), ',').into_iter().map(|w| w.into_iter().collect()).collect();
    assert_eq!(got, vec![""]);
}

#[test]
fn character_classes_agree_with_std() {
    for n in 0u32..=0x3100 {
        if let Some(c) = char::from_u32(n) {
            assert_eq!(shh::text::is_whitespace(c), c.is_whitespace(), "{:#x}", n);
            assert_eq!(shh::text::is_control(c), c.is_control(), "{:#x}", n);
        }
    }
    for c in ['\u{feff}', '\u{10ffff}', '\u{e000}', 'é'] {
        assert_eq!(shh::text::is_whitespace(c), c.is_whitespace());
        assert_eq!(shh::text::is_control(c), c.is_control());
    }
}

#[test]
fn substring_search_agrees_with_std() {
    let texts = ["", "a", "abc", "ababc", "héllo wörld", "aaa"];
    let pats = ["", "a", "b", "abc", "bab", "bc", "ö", "llo w", "aaaa", "c"];
    for t in texts {
        for p in pats {
            assert_eq!(shh::text::contains(t, p), t.contains(p), "{:?} in {:?}", p, t);
        }
    }
}
