//! The order of text, and numerals.

use census::text::{number_text, stands_before};

#[test]
fn text_stands_in_byte_order() {
    assert!(stands_before("member-a", "member-b"));
    assert!(!stands_before("member-b", "member-a"));
    assert!(!stands_before("member-a", "member-a"));
    assert!(stands_before("", "a"));
    assert!(!stands_before("a", ""));
    assert!(stands_before("member", "member-a"));
    assert!(stands_before("member-10", "member-9"));
    assert!(stands_before("Z", "a"));
    assert!(stands_before("z", "\u{e9}"));
    assert!(stands_before("\u{ffff}", "\u{10000}"));
}

#[test]
fn text_order_is_that_of_std() {
    let texts = ["", "a", "ab", "b", "B", "a\u{e9}", "\u{e9}", "\u{4e16}", "\u{1f600}", "~"];
    for a in texts.iter() {
        for b in texts.iter() {
            assert_eq!(stands_before(a, b), a < b);
        }
    }
}

#[test]
fn numerals_are_decimal() {
    assert_eq!(number_text(0), "0");
    assert_eq!(number_text(7), "7");
    assert_eq!(number_text(10), "10");
    assert_eq!(number_text(9638), "9638");
    assert_eq!(number_text(-42), "-42");
    assert_eq!(number_text(1234567890), "1234567890");
    assert_eq!(number_text(i32::MAX), "2147483647");
    assert_eq!(number_text(i32::MIN), "-2147483648");
}
