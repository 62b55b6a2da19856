use zcore::bytes::{be32, be64, high_word, le32, le64, low_word};
use zcore::text::{cut_at_nul, has_infix, has_prefix, has_suffix, same_bytes};
use zcore::words::{
    cat, cat3, has_ending, holds, is_white, join_with, same_text, split_lines, split_on,
    split_words, strip_prefix, to_decimal,
};

#[test]
fn numbers_in_bytes() {
    let bytes = [1u8, 2, 3, 4, 5, 6, 7, 8, 9];
    assert_eq!(le32(&bytes, 0), 0x0403_0201);
    assert_eq!(be32(&bytes, 1), 0x0203_0405);
    assert_eq!(le64(&bytes, 1), 0x0908_0706_0504_0302);
    assert_eq!(be64(&bytes, 0), 0x0102_0304_0506_0708);
    assert_eq!(low_word(0x1234_5678_9abc_def0), 0x9abc_def0);
    assert_eq!(high_word(0x1234_5678_9abc_def0), 0x1234_5678);
}

#[test]
fn pieces_of_bytes() {
    assert!(same_bytes(b"abc", b"abc"));
    assert!(!same_bytes(b"abc", b"abd"));
    assert!(has_prefix(b"uart@1", b"uart@"));
    assert!(has_suffix(b"apple,aic", b",aic"));
    assert!(has_infix(b"a simple-bus b", b"simple"));
    assert!(!has_infix(b"ab", b"abc"));
    assert_eq!(cut_at_nul(b"ab\0cd"), b"ab");
    assert_eq!(cut_at_nul(b"ab"), b"ab");
}

#[test]
fn splitting_keeps_everything() {
    assert_eq!(split_on("a?b??", '?'), vec!["a", "b", "", ""]);
    assert_eq!(split_on("", '?'), vec![""]);
    assert_eq!(split_on("\u{e9}?\u{4e2d}", '?'), vec!["\u{e9}", "\u{4e2d}"]);
    for text in ["a?b", "?", "", "no", "x?y?z?"] {
        assert_eq!(join_with(&split_on(text, '?'), "?"), text);
    }
}

#[test]
fn lines_are_those_of_the_standard_library() {
    for text in ["", "a", "a\n", "a\nb", "a\r\nb\r", "\n\n", "\r\n", "a\r\r\nb\n"] {
        let expected: Vec<&str> = text.lines().collect();
        assert_eq!(split_lines(text), expected);
    }
}

#[test]
fn words_are_those_of_the_standard_library() {
    for text in ["", " ", "a b", "  a\t b\n", "x\u{3000}y\u{85}z", "one"] {
        let expected: Vec<&str> = text.split_whitespace().collect();
        assert_eq!(split_words(text), expected);
    }
    for c in '\0'..='\u{ffff}' {
        assert_eq!(is_white(c), c.is_whitespace());
    }
}

#[test]
fn decimal_numbers() {
    for n in [0, 9, 10, 65535, 1_234_567_890, u64::MAX] {
        assert_eq!(to_decimal(n), n.to_string());
    }
}

#[test]
fn texts_are_put_together() {
    assert_eq!(cat("a", "b"), "ab");
    assert_eq!(cat3("a", "", "c"), "ac");
    assert!(same_text("ab", "ab"));
    assert!(!same_text("ab", "abc"));
    assert!(holds(&vec!["x".to_string(), "y".to_string()], "y"));
    assert!(!holds(&vec![], "y"));
    assert_eq!(strip_prefix("nameserver x", "nameserver "), Some("x"));
    assert_eq!(strip_prefix("name", "nameserver "), None);
    assert!(has_ending("a.exe", ".exe"));
    assert!(!has_ending("exe", ".exe"));
}
