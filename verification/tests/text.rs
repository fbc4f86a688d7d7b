use autonice::text::{
    contains_char, contains_text, nth_word, parse_u32, same_text, tail_after, trim_end_char,
    white_space,
};

#[test]
fn searches() {
    assert!(contains_text("/usr/bin/ssh-add", "dd"));
    assert!(contains_text("aab", "ab"));
    assert!(contains_text("ab", "ab"));
    assert!(contains_text("ab", ""));
    assert!(contains_text("", ""));
    assert!(!contains_text("", "a"));
    assert!(!contains_text("aba", "bb"));
    assert!(contains_char("a)b", ')'));
    assert!(!contains_char("", ')'));
}

#[test]
fn ends_of_text() {
    assert_eq!(tail_after("a/b/c", '/'), "c");
    assert_eq!(tail_after("abc", '/'), "abc");
    assert_eq!(trim_end_char("a\0b\0\0", '\0'), "a\0b");
    assert_eq!(trim_end_char("\0\0", '\0'), "");
    assert!(same_text("\u{e4}", "\u{e4}"));
    assert!(!same_text("a", "ab"));
}

#[test]
fn words_in_order() {
    assert_eq!(nth_word("  S\t41 42\n", 0), Some("S"));
    assert_eq!(nth_word("  S\t41 42\n", 1), Some("41"));
    assert_eq!(nth_word("  S\t41 42\n", 2), Some("42"));
    assert_eq!(nth_word("  S\t41 42\n", 3), None);
    assert_eq!(nth_word(" ", 0), None);
}

#[test]
fn white_space_is_that_of_the_standard_library() {
    for code in 0..0x3100u32 {
        if let Some(c) = char::from_u32(code) {
            assert_eq!(white_space(c), c.is_whitespace());
        }
    }
}

#[test]
fn numbers_are_those_of_the_standard_library() {
    for text in ["0", "007", "+7", "-7", "", "+", "++1", "4294967295", "4294967296", "1e3", " 1", "1_0"] {
        assert_eq!(parse_u32(text), text.parse::<u32>().ok());
    }
}
