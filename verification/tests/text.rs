use confluence::text::{char_is_space, i64_text, join2, join3, parse_i64, same_text, split_on, trim, u64_text};

#[test]
fn trimming() {
    assert_eq!(trim("  a b \t\n"), "a b");
    assert_eq!(trim(""), "");
    assert_eq!(trim(" \u{3000}\u{a0} "), "");
    assert_eq!(trim("x"), "x");
    assert_eq!(trim("\u{2003}<mux>\u{85}"), "<mux>");
    assert_eq!(trim("\u{200b}x"), "\u{200b}x");
    for text in ["  a b \t\n", "", " \u{3000}\u{a0} ", "\u{1680}é \u{2028}", "\u{200b}x\u{feff}", "\u{1c}\u{1f}y"] {
        assert_eq!(trim(text), text.trim());
    }
}

#[test]
fn white_space_is_what_the_language_says() {
    for code in 0u32..0x3100 {
        if let Some(c) = char::from_u32(code) {
            assert_eq!(char_is_space(c), c.is_whitespace(), "{:x}", code);
        }
    }
}

#[test]
fn splitting() {
    assert_eq!(split_on("a;b;;c", ';'), vec!["a", "b", "", "c"]);
    assert_eq!(split_on("", ';'), vec![""]);
    assert_eq!(split_on(";", ';'), vec!["", ""]);
    assert_eq!(split_on("abc", ';'), vec!["abc"]);
    assert_eq!(split_on("é=ü=", '='), vec!["é", "ü", ""]);
    for text in ["a;b;;c", "", ";", ";;", "x;", ";x", "no separator"] {
        let std: Vec<String> = text.split(';').map(|p| p.to_string()).collect();
        assert_eq!(split_on(text, ';'), std);
    }
}

#[test]
fn reading_integers() {
    assert_eq!(parse_i64("0"), Some(0));
    assert_eq!(parse_i64("-0"), Some(0));
    assert_eq!(parse_i64("+17"), Some(17));
    assert_eq!(parse_i64("-17"), Some(-17));
    assert_eq!(parse_i64("0042"), Some(42));
    assert_eq!(parse_i64("9223372036854775807"), Some(i64::MAX));
    assert_eq!(parse_i64("9223372036854775808"), None);
    assert_eq!(parse_i64("-9223372036854775808"), Some(i64::MIN));
    assert_eq!(parse_i64("-9223372036854775809"), None);
    assert_eq!(parse_i64("99999999999999999999999"), None);
    for text in ["", "-", "+", "1 ", " 1", "1.5", "1e3", "--1", "+-1", "١٢", "0x10", "abc"] {
        assert_eq!(parse_i64(text), None, "{}", text);
    }
    for text in ["0", "-0", "+17", "0042", "9223372036854775808", "-9223372036854775808", "", "-", "12a"] {
        assert_eq!(parse_i64(text), text.parse::<i64>().ok());
    }
}

#[test]
fn writing_integers() {
    assert_eq!(u64_text(0), "0");
    assert_eq!(u64_text(10), "10");
    assert_eq!(u64_text(u64::MAX), "18446744073709551615");
    assert_eq!(i64_text(-1), "-1");
    assert_eq!(i64_text(i64::MIN), "-9223372036854775808");
    assert_eq!(i64_text(i64::MAX), "9223372036854775807");
}

#[test]
fn joining_and_comparing() {
    assert_eq!(join2("a", "b"), "ab");
    assert_eq!(join3("s1", " ", "proxy-a"), "s1 proxy-a");
    assert!(same_text("x", "x"));
    assert!(!same_text("x", "y"));
    assert!(same_text("", ""));
}
