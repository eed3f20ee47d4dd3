use llamadeck::text::{
    contains_text, decimal_of, is_white_space, join, same_text, signed_decimal_of, strip_trailing,
    trim,
};

#[test]
fn white_space_is_that_of_unicode() {
    for code in 0..=0x10ffffu32 {
        if let Some(c) = char::from_u32(code) {
            assert_eq!(is_white_space(c), c.is_whitespace(), "U+{:04X}", code);
        }
    }
}

#[test]
fn trimming_takes_white_space_off_both_ends() {
    assert_eq!(trim("  a b \t\r\n"), "a b");
    assert_eq!(trim("\u{a0}\u{3000}ё\u{2028}"), "ё");
    assert_eq!(trim(" \n "), "");
    assert_eq!(trim(""), "");
    assert_eq!(trim("\u{200b}x"), "\u{200b}x");
}

#[test]
fn trailing_characters_are_stripped() {
    assert_eq!(strip_trailing("http://a//", '/'), "http://a");
    assert_eq!(strip_trailing("///", '/'), "");
    assert_eq!(strip_trailing("/a", '/'), "/a");
}

#[test]
fn texts_are_compared_by_their_characters() {
    assert!(same_text("да", "да"));
    assert!(!same_text("да", "дa"));
    assert!(!same_text("a", "ab"));
    assert!(same_text("", ""));
}

#[test]
fn a_list_of_texts_can_be_searched() {
    let list = vec!["read_file".to_string(), "list_dir".to_string()];
    assert!(contains_text(&list, "list_dir"));
    assert!(!contains_text(&list, "list"));
    assert!(!contains_text(&Vec::new(), ""));
}

#[test]
fn joining_puts_the_separator_between_items() {
    let list = vec!["a".to_string(), "".to_string(), "б".to_string()];
    assert_eq!(join(&list, ", "), "a, , б");
    assert_eq!(join(&vec!["x".to_string()], ", "), "x");
    assert_eq!(join(&Vec::new(), ", "), "");
}

#[test]
fn numbers_are_written_in_decimal() {
    assert_eq!(decimal_of(0), "0");
    assert_eq!(decimal_of(10), "10");
    assert_eq!(decimal_of(1234567890), "1234567890");
    assert_eq!(decimal_of(u128::MAX), u128::MAX.to_string());
    assert_eq!(signed_decimal_of(-1), "-1");
    assert_eq!(signed_decimal_of(i32::MIN), "-2147483648");
    assert_eq!(signed_decimal_of(127), "127");
}
