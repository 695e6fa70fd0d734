//! Small things that the rest is built of.

use traject::clock::now_ms;
use traject::named::NamedTable;
use traject::slices::{copied, extend, fill, overlay, resize};
use traject::text::{
    decimal, ends_with, join, join_path, list_of_u32, parse_number, same, starts_with, strip_end, trim,
    trim_end_char,
};

#[test]
fn numbers_are_written_and_read() {
    assert_eq!(decimal(0), "0");
    assert_eq!(decimal(u64::MAX), "18446744073709551615");
    assert_eq!(parse_number("42", 100), Some(42));
    assert_eq!(parse_number("+7", 100), Some(7));
    assert_eq!(parse_number("101", 100), None);
    assert_eq!(parse_number("", 100), None);
    assert_eq!(parse_number("4x", 100), None);
    assert_eq!(parse_number("-1", 100), None);
}

#[test]
fn words_are_joined_and_cut() {
    let w = vec!["a".to_string(), "b".to_string()];
    assert_eq!(join(&w, ", "), "a, b");
    assert_eq!(list_of_u32(&[1, 2], ", "), "[1, 2]");
    assert_eq!(trim_end_char("a//", '/'), "a");
    assert_eq!(trim(" \t a b \n"), "a b");
    assert!(starts_with("--m=x", "--m="));
    assert!(ends_with("x/v1", "/v1"));
    assert_eq!(strip_end("x/v1", "/v1"), "x");
    assert!(same("é", "é") && !same("a", "b"));
}

#[test]
fn pieces_of_lists() {
    assert_eq!(fill(7, 3), vec![7, 7, 7]);
    assert_eq!(copied(&[1, 2, 3, 4], 1, 3), vec![2, 3]);
    let mut v = vec![1];
    extend(&mut v, &[5, 6, 7], 1, 3);
    assert_eq!(v, vec![1, 6, 7]);
    overlay(&mut v, 1, &[8, 9], 0, 2);
    assert_eq!(v, vec![1, 8, 9]);
    resize(&mut v, 4, 0);
    assert_eq!(v, vec![1, 8, 9, 0]);
    resize(&mut v, 1, 0);
    assert_eq!(v, vec![1]);
}

#[test]
fn a_table_holds_one_entry_for_each_name() {
    let mut t = NamedTable::new();
    assert!(t.get("a").is_none());
    t.insert("a", 1);
    t.insert("b", 2);
    t.insert("a", 3);
    assert_eq!(t.get("a"), Some(&3));
    assert_eq!(t.remove("a"), Some(3));
    assert_eq!(t.remove("a"), None);
    assert!(t.contains("b"));
}

#[test]
fn the_clock_has_passed_2020() {
    assert!(now_ms() > 1_577_836_800_000);
}

#[test]
fn a_path_is_joined_to_a_directory() {
    assert_eq!(join_path("/m", "a.json"), "/m/a.json");
    assert_eq!(join_path("/m/", "a.json"), "/m/a.json");
    assert_eq!(join_path("/m", ""), "/m/");
    assert_eq!(join_path("", "a"), "a");
    assert_eq!(join_path("/m", "/abs/a"), "/abs/a");
    for (dir, path) in [("/m", "a"), ("/m/", "a"), ("m", ""), ("", "a"), ("", ""), ("m", "/a")] {
        let std = std::path::Path::new(dir).join(path);
        assert_eq!(join_path(dir, path), std.to_str().unwrap());
    }
}
