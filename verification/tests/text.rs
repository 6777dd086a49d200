use pcotool::text::{
    chars_of, count, decimal_text, find, is_white_space, parse_u64, s, same_text, text_precedes,
    trim_range,
};

fn position(text: &str, pattern: &str) -> Option<usize> {
    find(&chars_of(text), &chars_of(pattern))
}

fn trim(text: &str) -> String {
    let chars = chars_of(text);
    let (from, to) = trim_range(&chars, 0, chars.len());
    chars[from..to].iter().collect()
}

#[test]
fn plural_ending() {
    assert_eq!(s(0), "s");
    assert_eq!(s(1), "");
    assert_eq!(s(2), "s");
    assert_eq!(s(usize::MAX), "s");
}

#[test]
fn characters_of_a_text() {
    assert_eq!(chars_of(""), Vec::<char>::new());
    assert_eq!(chars_of("aé漢"), vec!['a', 'é', '漢']);
}

#[test]
fn texts_are_compared_by_their_characters() {
    assert!(same_text("", ""));
    assert!(same_text("Room 500", "Room 500"));
    assert!(!same_text("Room 500", "Room 500 AV"));
    assert!(!same_text("Room 500", "room 500"));
}

#[test]
fn characters_are_counted() {
    assert_eq!(count(&chars_of(""), 'a'), 0);
    assert_eq!(count(&chars_of("banana"), 'a'), 3);
    assert_eq!(count(&chars_of("&&amp;"), '&'), 2);
    assert_eq!(count(&chars_of("a\0b\0"), '\0'), 2);
    assert_eq!(count(&chars_of("banana"), 'A'), 0);
}

#[test]
fn search_finds_the_first_occurrence() {
    assert_eq!(position("abcabc", "abc"), Some(0));
    assert_eq!(position("xxabcabc", "abc"), Some(2));
    assert_eq!(position("aab", "ab"), Some(1));
    assert_eq!(position("漢字abc", "abc"), Some(2));
}

#[test]
fn search_fails_without_an_occurrence() {
    assert_eq!(position("ab", "abc"), None);
    assert_eq!(position("", "a"), None);
    assert_eq!(position("acb", "ab"), None);
}

#[test]
fn empty_pattern_occurs_at_the_start() {
    assert_eq!(position("", ""), Some(0));
    assert_eq!(position("abc", ""), Some(0));
}

#[test]
fn white_space_is_that_of_the_standard_library() {
    for code in 0..=0x10FFFFu32 {
        if let Some(c) = char::from_u32(code) {
            assert_eq!(is_white_space(c), c.is_whitespace(), "{:#x}", code);
        }
    }
}

#[test]
fn trimming_is_that_of_the_standard_library() {
    for text in ["", " ", "  a", "a  ", "\t a b \n", "\u{3000}id\u{a0}", "a", "\u{200b}a"] {
        assert_eq!(trim(text), text.trim());
    }
}

#[test]
fn trimming_stays_within_the_range() {
    let chars = chars_of("  a b  ");
    assert_eq!(trim_range(&chars, 1, 4), (2, 3));
    assert_eq!(trim_range(&chars, 0, 2), (2, 2));
    assert_eq!(trim_range(&chars, 3, 3), (3, 3));
}

#[test]
fn text_order_is_that_of_the_standard_library() {
    let texts = ["", "1", "10", "12", "2", "a", "A", "ab", "é", "z", "漢", "\u{ffff}", "\u{10000}"];
    for a in texts {
        for b in texts {
            assert_eq!(text_precedes(a, b), a < b, "{} {}", a, b);
        }
    }
}

#[test]
fn decimal_numbers_are_written_as_usual() {
    for n in [0, 1, 9, 10, 25, 100, 429, 604_800, u64::MAX - 1, u64::MAX] {
        assert_eq!(decimal_text(n), n.to_string());
    }
}

#[test]
fn decimal_numbers_read_back() {
    for n in [0, 7, 10, 1_200_000_000_000_001, u64::MAX] {
        assert_eq!(parse_u64(&decimal_text(n)), Some(n));
    }
}

#[test]
fn numbers_are_read_as_the_standard_library_reads_them() {
    let texts = [
        "", "0", "00", "7", "+7", "++7", "-7", "-0", "+", "-", " 7", "7 ", "1_000", "12a", "٣",
        "18446744073709551615", "18446744073709551616", "000018446744073709551615",
        "99999999999999999999999", "+18446744073709551615",
    ];
    for text in texts {
        assert_eq!(parse_u64(text), text.parse::<u64>().ok(), "{}", text);
    }
}
