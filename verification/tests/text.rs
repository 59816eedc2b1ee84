use license_compliance::text::{
    chars_of, count_chars_in_bytes, hyphenate, push_decimal, str_contains, str_eq_ignore_ascii_case, str_equals,
    trim_str,
};

#[test]
fn trim_removes_white_space_at_both_ends() {
    assert_eq!(trim_str("  MIT \t\n"), "MIT");
    assert_eq!(trim_str("\u{a0}a b\u{3000}"), "a b");
    assert_eq!(trim_str("   "), "");
    assert_eq!(trim_str(""), "");
}

#[test]
fn ascii_case_insensitive_equality() {
    assert!(str_eq_ignore_ascii_case("Apache-2.0", "APACHE-2.0"));
    assert!(!str_eq_ignore_ascii_case("é", "É"));
    assert!(!str_eq_ignore_ascii_case("MIT", "MIT-0"));
    assert!(str_equals("ab", "ab"));
    assert!(!str_equals("ab", "aB"));
}

#[test]
fn decimal_notation() {
    let mut s = String::from("n=");
    push_decimal(&mut s, 0);
    push_decimal(&mut s, 1205);
    assert_eq!(s, "n=01205");
}

#[test]
fn utf8_byte_counts() {
    let cs = chars_of("aé✅😀");
    assert_eq!(cs.len(), 4);
    assert_eq!(count_chars_in_bytes(&cs, "aé✅😀".len()), 4);
    assert_eq!(count_chars_in_bytes(&cs, "aé✅😀".len() - 1), 3);
    assert_eq!(count_chars_in_bytes(&cs, 3), 2);
    assert_eq!(count_chars_in_bytes(&cs, 5), 2);
    assert_eq!(count_chars_in_bytes(&cs, 6), 3);
}

#[test]
fn contains_finds_runs_of_characters() {
    assert!(str_contains("weak-copyleft", "copy"));
    assert!(str_contains("weak-copyleft", "weak-copyleft"));
    assert!(str_contains("mit", ""));
    assert!(str_contains("", ""));
    assert!(!str_contains("mit", "mit-0"));
    assert!(!str_contains("permissive", "copyleft"));
    assert!(str_contains("grüße", "üß"));
}

#[test]
fn hyphenate_replaces_spaces_only() {
    assert_eq!(hyphenate("weak copyleft"), "weak-copyleft");
    assert_eq!(hyphenate(" a  b "), "-a--b-");
    assert_eq!(hyphenate("a\tb"), "a\tb");
    assert_eq!(hyphenate(""), "");
}
