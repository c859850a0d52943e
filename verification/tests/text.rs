use arachne::strmap::StrMap;
use arachne::text::{
    contains_text, decimal_text, join2, parse_unsigned, same_text, split_non_empty, split_text,
    text_or, trim, Sep,
};

#[test]
fn texts_are_split() {
    assert_eq!(split_text("a;b;;c", Sep::Char(';')), vec!["a", "b", "", "c"]);
    assert_eq!(split_text("", Sep::Char(';')), vec![""]);
    assert_eq!(split_text(";", Sep::Char(';')), vec!["", ""]);
    assert_eq!(split_non_empty(" a \t b\u{3000}c\n", Sep::Whitespace), vec!["a", "b", "c"]);
    assert_eq!(split_non_empty("::", Sep::Char(':')), Vec::<String>::new());
}

#[test]
fn texts_are_trimmed_as_the_standard_library_trims() {
    for text in ["", "  ", " a b ", "\u{a0}x\u{2003}", "\u{200b}x", "x\r\n", "\u{85}\u{feff}"] {
        assert_eq!(trim(text), text.trim());
    }
    for c in (0..0x3100u32).filter_map(char::from_u32) {
        let text = format!("{c}x{c}");
        assert_eq!(trim(&text), text.trim());
    }
}

#[test]
fn numerals_are_read_as_the_standard_library_reads_them() {
    for text in
        ["", "+", "-0", "0", "007", "+12", "++1", "18446744073709551615", "18446744073709551616",
         "1 ", "\u{661}", "99999999999999999999999"]
    {
        assert_eq!(parse_unsigned(text, u64::MAX), text.parse::<u64>().ok(), "{}", text);
        assert_eq!(
            parse_unsigned(text, u16::MAX as u64),
            text.parse::<u16>().ok().map(|v| v as u64),
            "{}",
            text
        );
    }
}

#[test]
fn numerals_are_written() {
    for n in [0, 9, 10, 255, 1000, 65535, 4294967296, u64::MAX] {
        assert_eq!(decimal_text(n), n.to_string());
    }
}

#[test]
fn texts_are_compared_joined_and_searched() {
    assert!(same_text("a", "a") && !same_text("a", "b") && !same_text("a", "aa"));
    assert_eq!(join2("ab", "c"), "abc");
    assert!(contains_text("abcd", "bc") && contains_text("abc", "") && contains_text("", ""));
    assert!(!contains_text("abc", "ac") && !contains_text("a", "ab"));
    assert_eq!(text_or(&Some("x".to_string()), "y"), "x");
    assert_eq!(text_or(&None, "y"), "y");
}

#[test]
fn a_map_of_texts_keeps_its_order() {
    let mut m: StrMap<u32> = StrMap::new();
    m.insert("b".to_string(), 1);
    m.insert("a".to_string(), 2);
    m.insert("b".to_string(), 3);
    assert_eq!(m.len(), 2);
    assert_eq!((m.key_at(0).as_str(), *m.value_at(0)), ("b", 3));
    assert_eq!((m.key_at(1).as_str(), *m.value_at(1)), ("a", 2));
    assert_eq!(m.get("a"), Some(&2));
    assert_eq!(m.remove("b"), Some(3));
    assert_eq!(m.remove("b"), None);
    assert_eq!(m.get("b"), None);
    assert_eq!((m.len(), m.key_at(0).as_str()), (1, "a"));
}
