use apex::text::{append_decimal, chars_of, contains_text, joined, second_field_u64, text_before, text_eq};

#[test]
fn decimals() {
    let mut out = "n=".to_string();
    append_decimal(&mut out, 0);
    append_decimal(&mut out, 907);
    assert_eq!(out, "n=0907");
    let mut out = String::new();
    append_decimal(&mut out, u64::MAX);
    assert_eq!(out, u64::MAX.to_string());
}

#[test]
fn texts_are_compared_by_character() {
    assert!(text_eq("abc", "abc"));
    assert!(!text_eq("abc", "ab"));
    assert!(text_before("ab", "abc"));
    assert!(text_before("10", "2"));
    assert!(!text_before("2", "10"));
    assert!(!text_before("a", "a"));
    assert!(text_before("z", "é"));
}

#[test]
fn texts_are_found_and_joined() {
    let list = vec!["a".to_string(), "b".to_string()];
    assert!(contains_text(&list, "b"));
    assert!(!contains_text(&list, "c"));
    assert_eq!(joined("a", "b"), "ab");
    assert_eq!(chars_of("aé"), vec!['a', 'é']);
}

#[test]
fn second_fields() {
    assert_eq!(second_field_u64("1 2 3"), Some(2));
    assert_eq!(second_field_u64("\u{a0}1\u{2003}7"), Some(7));
    assert_eq!(second_field_u64("1 -2"), None);
    assert_eq!(second_field_u64("1 +"), None);
    assert_eq!(second_field_u64("1 0x2"), None);
    assert_eq!(second_field_u64("1 007"), Some(7));
}
