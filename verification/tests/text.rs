use mikes_crawler::text::{
    characters, decimal, padded_decimal, same_optional_text, same_text, starts_with,
};

#[test]
fn texts_are_compared_by_their_characters() {
    assert!(same_text("a\u{e9}", "a\u{e9}"));
    assert!(!same_text("a", "A"));
    assert!(!same_text("a", "ab"));
    assert!(same_optional_text(&None, &None));
    assert!(same_optional_text(&Some("a".to_string()), &Some("a".to_string())));
    assert!(!same_optional_text(&Some("a".to_string()), &Some("b".to_string())));
    assert!(!same_optional_text(&Some(String::new()), &None));
}

#[test]
fn a_text_begins_with_its_prefixes() {
    assert!(starts_with("abc", ""));
    assert!(starts_with("abc", "ab"));
    assert!(starts_with("abc", "abc"));
    assert!(!starts_with("abc", "abcd"));
    assert!(!starts_with("abc", "b"));
    assert_eq!(characters("a\u{20ac}"), vec!['a', '\u{20ac}']);
}

#[test]
fn numbers_are_written_in_decimal() {
    for number in [0, 7, 10, 99, 100, 12345, u64::MAX] {
        assert_eq!(decimal(number), number.to_string());
    }
    for number in [0, 7, 10, 99, 100, 999] {
        assert_eq!(padded_decimal(number), format!("{:03}", number));
    }
}
