//! The line protocol's input side: tokenizing and fetch batches.

use ngit::protocol::{get_oids_from_fetch_batch, tokenize_line};

fn lines(items: &[&str]) -> Vec<String> {
    items.iter().map(|s| s.to_string()).collect()
}

#[test]
fn tokenize_protocol_lines() {
    assert_eq!(tokenize_line("fetch abc refs/heads/main\n"), vec!["fetch", "abc", "refs/heads/main"]);
    assert_eq!(tokenize_line("  push   +src:dst  "), vec!["push", "+src:dst"]);
    assert_eq!(tokenize_line("\n"), Vec::<String>::new());
    assert_eq!(tokenize_line(""), Vec::<String>::new());
    assert_eq!(tokenize_line("capabilities"), vec!["capabilities"]);
    // Splitting happens on spaces only; other whitespace is trimmed at the
    // ends but kept inside a token.
    assert_eq!(tokenize_line("a\tb c\r\n"), vec!["a\tb", "c"]);
}

#[test]
fn fetch_batch_accumulates() {
    let input = lines(&["fetch bbb refs/heads/b", "fetch ccc refs/heads/c", ""]);
    let batch = get_oids_from_fetch_batch(&input, "aaa", "refs/heads/a").unwrap();
    assert_eq!(batch.len(), 3);
    let find = |r: &str| {
        batch
            .iter()
            .find(|item| item.refstr == r)
            .map(|item| item.oid.clone())
            .unwrap()
    };
    assert_eq!(find("refs/heads/a"), "aaa");
    assert_eq!(find("refs/heads/b"), "bbb");
    assert_eq!(find("refs/heads/c"), "ccc");
}

#[test]
fn fetch_batch_last_line_wins() {
    let input = lines(&["fetch new refs/heads/a", ""]);
    let batch = get_oids_from_fetch_batch(&input, "old", "refs/heads/a").unwrap();
    assert_eq!(batch.len(), 1);
    assert_eq!(batch[0].refstr, "refs/heads/a");
    assert_eq!(batch[0].oid, "new");
}

#[test]
fn fetch_batch_rejects_other_commands() {
    let input = lines(&["push src:dst", ""]);
    assert!(get_oids_from_fetch_batch(&input, "aaa", "refs/heads/a").is_err());
}

#[test]
fn fetch_batch_stops_at_blank_line() {
    let input = lines(&["", "fetch bbb refs/heads/b"]);
    let batch = get_oids_from_fetch_batch(&input, "aaa", "refs/heads/a").unwrap();
    assert_eq!(batch.len(), 1);
    assert_eq!(batch[0].refstr, "refs/heads/a");
}
