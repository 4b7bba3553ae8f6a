//! The human-readable list joining and the other string helpers.

use ngit::strings::{
    join_with_and, join_with_commas, str_eq, str_starts_with, string_contains, u64_to_decimal,
    vec_contains_str, vecs_intersect,
};

fn owned(items: &[&str]) -> Vec<String> {
    items.iter().map(|s| s.to_string()).collect()
}

#[test]
fn test_empty() {
    let items: Vec<String> = owned(&[]);
    assert_eq!(join_with_and(&items), "");
}

#[test]
fn test_single_item() {
    let items = owned(&["apple"]);
    assert_eq!(join_with_and(&items), "apple");
}

#[test]
fn test_two_items() {
    let items = owned(&["apple", "banana"]);
    assert_eq!(join_with_and(&items), "apple and banana");
}

#[test]
fn test_three_items() {
    let items = owned(&["apple", "banana", "cherry"]);
    assert_eq!(join_with_and(&items), "apple, banana and cherry");
}

#[test]
fn test_four_items() {
    let items = owned(&["apple", "banana", "cherry", "date"]);
    assert_eq!(join_with_and(&items), "apple, banana, cherry and date");
}

#[test]
fn test_multiple_items() {
    let items = owned(&["one", "two", "three", "four", "five"]);
    assert_eq!(join_with_and(&items), "one, two, three, four and five");
}

#[test]
fn join_with_commas_lists() {
    assert_eq!(join_with_commas(&owned(&[])), "");
    assert_eq!(join_with_commas(&owned(&["a"])), "a");
    assert_eq!(join_with_commas(&owned(&["a", "b", "c"])), "a, b, c");
}

#[test]
fn string_helpers() {
    assert!(str_eq("abc", "abc"));
    assert!(!str_eq("abc", "abd"));
    assert!(string_contains("all authentication attempts failed", "authentication"));
    assert!(!string_contains("network unreachable", "authentication"));
    assert!(string_contains("anything", ""));
    assert!(str_starts_with("refs/heads/main", "refs/heads/"));
    assert!(!str_starts_with("refs/tags/v1", "refs/heads/"));
}

#[test]
fn decimal_rendering() {
    assert_eq!(u64_to_decimal(0), "0");
    assert_eq!(u64_to_decimal(7), "7");
    assert_eq!(u64_to_decimal(30617), "30617");
    assert_eq!(u64_to_decimal(1000), "1000");
}

#[test]
fn string_membership() {
    let v = owned(&["x", "y"]);
    assert!(vec_contains_str(&v, "y"));
    assert!(!vec_contains_str(&v, "z"));
    let w = owned(&["z", "y"]);
    assert!(vecs_intersect(&v, &w));
    let u = owned(&["q"]);
    assert!(!vecs_intersect(&v, &u));
}
