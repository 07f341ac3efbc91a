use compaction::text::{
    chars_of, contains, decimal_text, drop_white_space, find_from, has_prefix, has_suffix,
    lowercase, matches_at, same_text, skip_white_space, white_space,
};

#[test]
fn white_space_is_what_unicode_says() {
    for c in '\0'..=char::MAX {
        assert_eq!(white_space(c), c.is_whitespace(), "{c:?}");
    }
}

#[test]
fn lowercase_touches_ascii_letters_only() {
    let text: String = ('\0'..='\u{2ff}').collect();
    let lowered: String = lowercase(&text).into_iter().collect();
    assert_eq!(lowered, text.to_ascii_lowercase());
}

#[test]
fn patterns_are_found_where_they_stand_first() {
    let text = chars_of("na\u{ef}ve banana");
    let find = |pattern: &str, from| find_from(&text, &chars_of(pattern), from);
    assert_eq!(find("na", 0), Some(0));
    assert_eq!(find("na", 1), Some(7));
    assert_eq!(find("ana", 0), Some(7));
    assert_eq!(find("\u{ef}", 0), Some(2));
    assert_eq!(find("", 3), Some(0));
    assert_eq!(find("nab", 0), None);
    assert_eq!(find("a longer pattern than the text", 0), None);
    assert_eq!(find("a", 12), None);
    assert!(contains(&text, "ban"));
    assert!(!contains(&text, "bane"));
    assert!(matches_at(&text, &chars_of("ban"), 6));
    assert!(!matches_at(&text, &chars_of("ban"), 7));
}

#[test]
fn prefixes_and_suffixes_are_recognized() {
    assert!(has_prefix("request-context:a", "request-context:"));
    assert!(!has_prefix("request", "request-context:"));
    assert!(has_prefix("a", ""));
    assert!(has_suffix("id:mark", ":mark"));
    assert!(!has_suffix("mark", ":mark"));
    assert!(!has_suffix("id:mark.", ":mark"));
    assert!(same_text("Read", "Read"));
    assert!(!same_text("Read", "Reads"));
    assert!(!same_text("Read", "read"));
}

#[test]
fn white_space_is_trimmed_at_both_ends() {
    let text = chars_of(" \t a b \u{3000}\n");
    assert_eq!(skip_white_space(&text, 0), 3);
    assert_eq!(skip_white_space(&text, 3), 3);
    assert_eq!(skip_white_space(&text, 6), 9);
    assert_eq!(drop_white_space(&text, 0, 9), 6);
    assert_eq!(drop_white_space(&text, 6, 9), 6);
    assert_eq!(drop_white_space(&text, 0, 4), 4);
}

#[test]
fn numbers_are_written_in_decimal() {
    for n in [0, 7, 10, 99, 100, 12_345, u64::MAX] {
        assert_eq!(decimal_text(n), n.to_string());
    }
}
