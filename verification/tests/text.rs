use toylang::text::{
    chars_of, concat2, concat3, concat4, ends_with, find_name, join_strings, signed_text,
    slice_text, str_eq, unsigned_text,
};

fn strings(items: &[&str]) -> Vec<String> {
    items.iter().map(|s| s.to_string()).collect()
}

#[test]
fn decimal_texts() {
    assert_eq!(unsigned_text(0), "0");
    assert_eq!(unsigned_text(10), "10");
    assert_eq!(unsigned_text(u64::MAX), "18446744073709551615");
    assert_eq!(signed_text(-7), "-7");
    assert_eq!(signed_text(0), "0");
    assert_eq!(signed_text(i64::MIN), "-9223372036854775808");
    assert_eq!(signed_text(i64::MAX), "9223372036854775807");
}

#[test]
fn decimal_digits_determine_the_number() {
    for n in [0, 9, 10, 4711, u64::MAX] {
        assert_eq!(unsigned_text(n).parse::<u64>(), Ok(n));
    }
}

#[test]
fn suffixes() {
    assert!(ends_with("point.toylang", ".toylang"));
    assert!(ends_with(".toylang", ".toylang"));
    assert!(ends_with("x", ""));
    assert!(!ends_with("toylang", ".toylang"));
    assert!(!ends_with("point.toylang.rs", ".toylang"));
}

#[test]
fn pieces() {
    assert_eq!(concat2("a", "b"), "ab");
    assert_eq!(concat3("a", "b", "c"), "abc");
    assert_eq!(concat4("a", "", "c", "d"), "acd");
    assert_eq!(join_strings(&strings(&[]), ", "), "");
    assert_eq!(join_strings(&strings(&["a"]), ", "), "a");
    assert_eq!(join_strings(&strings(&["a", "b", "c"]), ", "), "a, b, c");
    assert_eq!(slice_text(&chars_of("gr\u{f6}\u{df}e"), 2, 4), "\u{f6}\u{df}");
    assert!(str_eq("a", "a"));
    assert!(!str_eq("a", "A"));
}

#[test]
fn first_of_equal_names_is_found() {
    let names = strings(&["a", "b", "a", "b"]);
    assert_eq!(find_name(&names, "b"), Some(1));
    assert_eq!(find_name(&names, "a"), Some(0));
    assert_eq!(find_name(&names, "c"), None);
    assert_eq!(find_name(&strings(&[]), "a"), None);
}
