use mouzi::text::{
    chars_eq, i64_to_decimal, join_strings, replace_str, split_str, trim_str, u64_to_decimal,
};

#[test]
fn replace_every_occurrence() {
    assert_eq!(replace_str("a{x}b{x}", "{x}", "1"), "a1b1");
    assert_eq!(replace_str("no placeholder", "{x}", "1"), "no placeholder");
    assert_eq!(replace_str("", "{x}", "1"), "");
}

#[test]
fn replace_takes_matches_left_to_right() {
    assert_eq!(replace_str("aaa", "aa", "b"), "ba");
    assert_eq!(replace_str("aaaa", "aa", "b"), "bb");
}

#[test]
fn split_keeps_empty_pieces() {
    assert_eq!(split_str("a,b,,c", ','), vec!["a", "b", "", "c"]);
    assert_eq!(split_str("", ','), vec![""]);
    assert_eq!(split_str(",", ','), vec!["", ""]);
    assert_eq!(split_str("pl-PL", '-'), vec!["pl", "PL"]);
}

#[test]
fn trim_removes_unicode_whitespace_at_both_ends() {
    assert_eq!(trim_str("  jpg \t"), "jpg");
    assert_eq!(trim_str("\u{3000}png\n"), "png");
    assert_eq!(trim_str("a b"), "a b");
    assert_eq!(trim_str("   "), "");
    assert_eq!(trim_str(""), "");
}


#[test]
fn join_puts_separator_between_parts() {
    let parts = vec!["jpg".to_string(), "png".to_string(), "gif".to_string()];
    assert_eq!(join_strings(&parts, ","), "jpg,png,gif");
    assert_eq!(join_strings(&vec!["one".to_string()], ","), "one");
    assert_eq!(join_strings(&Vec::new(), ","), "");
}

#[test]
fn decimal_numbers() {
    assert_eq!(u64_to_decimal(0), "0");
    assert_eq!(u64_to_decimal(1234567), "1234567");
    assert_eq!(u64_to_decimal(u64::MAX), u64::MAX.to_string());
    assert_eq!(i64_to_decimal(-42), "-42");
    assert_eq!(i64_to_decimal(1_700_000_000), "1700000000");
    assert_eq!(i64_to_decimal(i64::MIN), i64::MIN.to_string());
}

#[test]
fn compare_characters() {
    assert!(chars_eq("move", "move"));
    assert!(!chars_eq("move", "Move"));
    assert!(!chars_eq("move", "mov"));
}

#[test]
fn whitespace_is_unicode_white_space() {
    for n in 0u32..0x110000 {
        if let Some(c) = char::from_u32(n) {
            assert_eq!(mouzi::text::char_is_whitespace(c), c.is_whitespace(), "U+{:04X}", n);
        }
    }
}
