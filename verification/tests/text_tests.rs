use habr_reader::text::{decimal_u8, join_strings, str_equal, str_less, trim};

#[test]
fn trim_removes_ascii_whitespace() {
    assert_eq!(trim("  hello world \n\t"), "hello world");
}

#[test]
fn trim_removes_unicode_whitespace() {
    assert_eq!(trim("\u{a0}\u{3000}x y\u{2029}\u{85}"), "x y");
}

#[test]
fn trim_keeps_inner_and_plain_text() {
    assert_eq!(trim("abc"), "abc");
    assert_eq!(trim("a \n b"), "a \n b");
}

#[test]
fn trim_of_blank_is_empty() {
    assert_eq!(trim(" \t\r\n "), "");
    assert_eq!(trim(""), "");
}

#[test]
fn trim_agrees_with_std() {
    for s in ["  x  ", "\u{200a}y\u{205f}", "\u{1680}", "z\u{b}", "\u{feff}q", "\u{200b}w"] {
        assert_eq!(trim(s), s.trim());
    }
}

#[test]
fn join_puts_separator_between_pieces() {
    let parts = vec!["a".to_string(), "b".to_string(), "c".to_string()];
    assert_eq!(join_strings(&parts, " "), "a b c");
}

#[test]
fn join_keeps_empty_pieces() {
    let parts = vec!["a".to_string(), "".to_string(), "c".to_string()];
    assert_eq!(join_strings(&parts, ", "), "a, , c");
}

#[test]
fn join_of_one_and_of_none() {
    assert_eq!(join_strings(&vec!["only".to_string()], " "), "only");
    assert_eq!(join_strings(&Vec::new(), " "), "");
}

#[test]
fn decimal_of_bytes() {
    assert_eq!(decimal_u8(0), "0");
    assert_eq!(decimal_u8(7), "7");
    assert_eq!(decimal_u8(10), "10");
    assert_eq!(decimal_u8(42), "42");
    assert_eq!(decimal_u8(100), "100");
    assert_eq!(decimal_u8(255), "255");
    for n in 0..=255u8 {
        assert_eq!(decimal_u8(n), n.to_string());
    }
}

#[test]
fn less_is_lexicographic() {
    assert!(str_less("abc", "abd"));
    assert!(str_less("ab", "abc"));
    assert!(!str_less("abc", "ab"));
    assert!(!str_less("b", "abc"));
    assert!(!str_less("same", "same"));
    assert!(str_less("", "a"));
    assert!(!str_less("", ""));
    assert!(str_less("Z", "a"));
    assert!(str_less("я", "\u{1F600}"));
}

#[test]
fn less_agrees_with_std_order() {
    let words = ["", "a", "ab", "b", "Ab", "\u{e9}t\u{e9}", "\u{44f}", "z"];
    for a in words {
        for b in words {
            assert_eq!(str_less(a, b), a < b, "{a:?} < {b:?}");
        }
    }
}

#[test]
fn equal_compares_characters() {
    assert!(str_equal("img", "img"));
    assert!(!str_equal("img", "im"));
    assert!(!str_equal("img", "imh"));
    assert!(str_equal("", ""));
}
