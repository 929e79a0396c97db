use ratect_core::text::{joined_text, contains_text, join_path, less_than, str_eq, to_decimal, trim};
use ratect_core::text_map::TextMap;
use ratect_core::utf8::utf8_bytes;

#[test]
fn a_later_insert_replaces_and_keeps_the_first_position() {
    let mut map = TextMap::new();
    map.insert("a".to_string(), 1);
    map.insert("b".to_string(), 2);
    map.insert("a".to_string(), 3);
    assert_eq!(map.len(), 2);
    assert_eq!(map.get("a"), Some(&3));
    assert_eq!(map.key_at(0), "a");
    assert_eq!(map.value_at(1), &2);
    assert!(map.contains_key("b"));
    assert!(!map.contains_key("c"));
    assert_eq!(map.get("c"), None);
}

#[test]
fn a_duplicate_holds_the_same_entries() {
    let mut map = TextMap::new();
    map.insert("k".to_string(), "v".to_string());
    let copy = map.duplicate();
    assert_eq!(copy.get("k"), Some(&"v".to_string()));
    assert_eq!(copy.len(), 1);
}

#[test]
fn texts_compare_by_code_point() {
    assert!(less_than("a", "b"));
    assert!(less_than("", "a"));
    assert!(less_than("ab", "b"));
    assert!(!less_than("b", "ab"));
    assert!(!less_than("a", "a"));
    assert!(str_eq("x", "x"));
    assert!(!str_eq("x", "y"));
}

#[test]
fn a_substring_is_found_anywhere() {
    assert!(contains_text("hello world", "o w"));
    assert!(contains_text("abc", ""));
    assert!(!contains_text("abc", "abcd"));
}

#[test]
fn trimming_removes_unicode_whitespace_at_both_ends() {
    assert_eq!(trim("  a b \n"), "a b");
    assert_eq!(trim("\u{3000}x\u{00A0}"), "x");
    assert_eq!(trim("   "), "");
}

#[test]
fn numbers_print_in_decimal() {
    assert_eq!(to_decimal(0), "0");
    assert_eq!(to_decimal(262145), "262145");
    assert_eq!(to_decimal(u64::MAX), u64::MAX.to_string());
}

#[test]
fn paths_join_with_one_separator() {
    assert_eq!(join_path("/a", "b"), "/a/b");
    assert_eq!(join_path("/a/", "b"), "/a/b");
    assert_eq!(join_path("", "b"), "b");
    assert_eq!(joined_text("x", "y"), "xy");
}

#[test]
fn text_encodes_as_utf8() {
    for s in ["", "abc", "é", "€", "😀", "a€😀é"] {
        assert_eq!(utf8_bytes(s), s.as_bytes().to_vec());
    }
}
