use earbuddy::text::char_is_space;
use earbuddy::text::chars_of;
use earbuddy::text::comes_before;
use earbuddy::text::contains;
use earbuddy::text::same;
use earbuddy::text::starts_with;
use earbuddy::text::trim;
use earbuddy::text::write_decimal;
use earbuddy::text::write_two_digits;

fn samples() -> Vec<&'static str> {
    vec!["", "a", "b", "ab", "aba", "abab", "é", "e\u{301}", "🐾 a", "🎵", "\u{ffff}", " ab ", "\u{a0}x\u{3000}", "\t"]
}

#[test]
fn white_space_is_that_of_unicode() {
    let mut code: u32 = 0;
    while code <= 0x10ffff {
        if let Some(c) = char::from_u32(code) {
            assert_eq!(char_is_space(c), c.is_whitespace(), "{:x}", code);
        }
        code += 1;
    }
}

#[test]
fn searching_agrees_with_the_standard_library() {
    for a in samples() {
        for b in samples() {
            assert_eq!(contains(a, b), a.contains(b));
            assert_eq!(starts_with(a, b), a.starts_with(b));
            assert_eq!(same(a, b), a == b);
            assert_eq!(comes_before(a, b), a < b);
        }
        assert_eq!(trim(a), a.trim());
        assert_eq!(chars_of(a), a.chars().collect::<Vec<char>>());
    }
}

#[test]
fn words_of_a_part_are_words_of_the_whole() {
    assert!(contains("siren alarm", "alarm"));
    assert!(contains("a siren alarm here", "alarm"));
    assert!(contains("alarm", ""));
    assert!(!contains("alar", "alarm"));
}

#[test]
fn order_of_texts() {
    assert!(!comes_before("a", "a"));
    assert!(comes_before("", "a"));
    assert!(comes_before("a", "ab"));
    assert!(comes_before("ab", "b"));
    assert!(comes_before("a", "b"));
}

#[test]
fn numbers_are_written_in_decimal() {
    assert_eq!(write_decimal(0), "0");
    assert_eq!(write_decimal(9), "9");
    assert_eq!(write_decimal(10), "10");
    assert_eq!(write_decimal(521), "521");
    assert_eq!(write_decimal(u64::MAX), "18446744073709551615");
    assert_eq!(write_two_digits(0), "00");
    assert_eq!(write_two_digits(7), "07");
    assert_eq!(write_two_digits(42), "42");
    assert_eq!(write_two_digits(100), "100");
}
