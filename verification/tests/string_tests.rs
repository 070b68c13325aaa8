use simple_gal::paths::{basename_of, extension_of, rfind_char, stripped_parent_of};
use simple_gal::strings::{
    str_eq_ignore_ascii_case, str_eq_str, str_lex_le, str_starts_with, vec_contains_string,
};

#[test]
fn string_equality_is_character_wise() {
    assert!(str_eq_str("", ""));
    assert!(str_eq_str("abc", "abc"));
    assert!(!str_eq_str("abc", "abd"));
    assert!(!str_eq_str("abc", "ab"));
    assert!(str_eq_str("héllo", "héllo"));
}

#[test]
fn prefix_test_is_literal() {
    assert!(str_starts_with("/a/bc", "/a/b"));
    assert!(str_starts_with("/a/b", "/a/b"));
    assert!(str_starts_with("anything", ""));
    assert!(!str_starts_with("/a/b", "/a/bc"));
    assert!(!str_starts_with("/a/c", "/a/b"));
}

#[test]
fn lexicographic_order_is_by_code_point() {
    assert!(str_lex_le("", "a"));
    assert!(str_lex_le("a", "a"));
    assert!(str_lex_le("/a", "/a/b"));
    assert!(str_lex_le("/a/b", "/z"));
    assert!(!str_lex_le("/z", "/a/b"));
    assert!(!str_lex_le("ab", "a"));
}

#[test]
fn case_insensitive_equality_folds_ascii_only() {
    assert!(str_eq_ignore_ascii_case("JPG", "jpg"));
    assert!(str_eq_ignore_ascii_case("WebM", "webm"));
    assert!(!str_eq_ignore_ascii_case("jpg", "jpeg"));
    assert!(!str_eq_ignore_ascii_case("", "a"));
}

#[test]
fn vector_membership_compares_contents() {
    let v = vec!["a@x".to_string(), "b@x".to_string()];
    assert!(vec_contains_string(&v, "a@x"));
    assert!(!vec_contains_string(&v, "c@x"));
    assert!(!vec_contains_string(&Vec::new(), "a@x"));
}

#[test]
fn path_parts_split_on_the_last_separators() {
    assert_eq!(rfind_char("/a/b/c", '/'), Some(4));
    assert_eq!(rfind_char("abc", '/'), None);
    assert_eq!(basename_of("/m/p.jpg"), "p.jpg");
    assert_eq!(basename_of("plain"), "plain");
    assert_eq!(stripped_parent_of("/m/sub/p.jpg"), "m/sub");
    assert_eq!(stripped_parent_of("/p.jpg"), "");
    assert_eq!(extension_of("/m/p.jpg"), Some("jpg"));
    assert_eq!(extension_of("/m/archive.tar.gz"), Some("gz"));
    assert_eq!(extension_of("/m/.hidden"), None);
    assert_eq!(extension_of("/m/noext"), None);
    assert_eq!(extension_of("/m/trailing."), Some(""));
}
