//! Tests for the string helpers.

use yasss13rtwcf_shared::helpers::string::{concat_vec, str_eq};

#[test]
fn concat_vec_joins_with_separator() {
    let items = vec!["a".to_string(), "b".to_string(), "c".to_string()];
    assert_eq!(concat_vec(&items, "+"), "a+b+c");
    assert_eq!(concat_vec(&vec!["solo".to_string()], "+"), "solo");
    assert_eq!(concat_vec(&Vec::new(), "+"), "");
}

#[test]
fn concat_vec_skips_separators_after_empty_prefixes() {
    // The separator is only inserted once something has accumulated, so
    // leading empty elements leave no separator behind.
    let items = vec![String::new(), "a".to_string()];
    assert_eq!(concat_vec(&items, "+"), "a");
    let tail = vec!["a".to_string(), String::new()];
    assert_eq!(concat_vec(&tail, "+"), "a+");
}

#[test]
fn str_eq_compares_characters() {
    assert!(str_eq("abc", "abc"));
    assert!(!str_eq("abc", "abd"));
    assert!(!str_eq("abc", "ab"));
    assert!(str_eq("", ""));
}
