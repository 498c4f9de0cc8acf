use wikibot::text::{chars_of, contains, i64_to_string, str_eq, str_lt};

#[test]
fn decimal_text_matches_to_string() {
    for x in [0i64, 7, 10, 42, -1, -100, 1234567890, i64::MAX, i64::MIN] {
        assert_eq!(i64_to_string(x), x.to_string());
    }
}

#[test]
fn contains_finds_pieces() {
    assert!(contains("Sunstriders (promo)", "(promo)"));
    assert!(!contains("Sunstriders", "(promo)"));
    assert!(contains("abc", ""));
    assert!(!contains("", "a"));
    assert!(contains("(promo)", "(promo)"));
    assert!(!contains("(promo", "(promo)"));
}

#[test]
fn equality_and_characters() {
    assert!(str_eq("edit", "edit"));
    assert!(!str_eq("edit", "Edit"));
    assert_eq!(chars_of("äb"), vec!['ä', 'b']);
}

#[test]
fn text_order_is_by_code_point_with_prefixes_first() {
    assert!(str_lt("a", "b"));
    assert!(str_lt("ab", "abc"));
    assert!(!str_lt("abc", "ab"));
    assert!(!str_lt("same", "same"));
    assert!(str_lt("", "x"));
    assert!(!str_lt("x", ""));
    assert!(str_lt("Zebra", "apple"));
    assert!(str_lt("z", "Ä"));
    assert_eq!(str_lt("Ä", "Z"), "Ä" < "Z");
}
