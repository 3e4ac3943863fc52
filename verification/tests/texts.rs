use capn::text::{
    bytes_of, char_is_whitespace, chars_of, contains, join, lines, list_has, number, parse_unsigned,
    part, push_text, signed_number, starts_with, strings_copy, text_eq, text_precedes, trim,
    trim_end, trim_start,
};

const TEXTS: [&str; 22] = [
    "", " ", "a", " a", "a ", "\t a b \n", "a\nb", "a\r\nb", "a\n", "a\r\n", "\n", "\r\n", "\r",
    "a\r", "\n\n", "a\n\nb\n", "\u{3000}x\u{a0}", "\u{200b}x", "ünï", "aab", "ab", "a\rb\nc",
];

#[test]
fn whitespace_is_what_std_calls_whitespace() {
    let mut code: u32 = 0;
    while code <= 0x10ffff {
        if let Some(c) = char::from_u32(code) {
            assert_eq!(char_is_whitespace(c), c.is_whitespace(), "{:#x}", code);
        }
        code += 1;
    }
}

#[test]
fn texts_agree_with_std() {
    for s in TEXTS {
        assert_eq!(trim(s), s.trim(), "{:?}", s);
        assert_eq!(trim_end(s), s.trim_end(), "{:?}", s);
        assert_eq!(trim_start(s), s.trim_start(), "{:?}", s);
        let expected: Vec<String> = s.lines().map(|l| l.to_string()).collect();
        assert_eq!(lines(s), expected, "{:?}", s);
        assert_eq!(chars_of(s), s.chars().collect::<Vec<char>>());
        assert_eq!(bytes_of(s), s.as_bytes().to_vec());
        for t in TEXTS {
            assert_eq!(contains(s, t), s.contains(t), "{:?} in {:?}", t, s);
            assert_eq!(starts_with(s, t), s.starts_with(t));
            assert_eq!(text_eq(s, t), s == t);
            assert_eq!(text_precedes(s, t), s < t);
        }
    }
}

#[test]
fn lists_of_texts() {
    let mut list: Vec<String> = Vec::new();
    assert_eq!(join(&list, ", "), "");
    push_text(&mut list, "a");
    assert_eq!(join(&list, ", "), "a");
    push_text(&mut list, "b");
    push_text(&mut list, "");
    assert_eq!(join(&list, ", "), "a, b, ");
    assert!(list_has(&list, "b"));
    assert!(!list_has(&list, "c"));
    assert_eq!(strings_copy(&list), list);
    assert_eq!(part("hello", 1, 3), "el");
}

#[test]
fn numbers_agree_with_std() {
    for n in [0, 1, 9, 10, 11, 99, 100, 12345, u64::MAX] {
        assert_eq!(number(n), n.to_string());
    }
    for n in [0, 7, -1, -10, i32::MAX, i32::MIN] {
        assert_eq!(signed_number(n), n.to_string());
    }
    for s in ["", "0", "7", "255", "256", "+12", "+", "-1", "1 ", "007", "99999999999", "x", "4294967295", "4294967296"] {
        assert_eq!(
            parse_unsigned(s, 255),
            s.parse::<u8>().ok().map(|n| n as u64),
            "{:?}",
            s
        );
        assert_eq!(
            parse_unsigned(s, 0xffff_ffff),
            s.parse::<u32>().ok().map(|n| n as u64),
            "{:?}",
            s
        );
    }
}
