//! Unit tests of the incremental (prefix) index.

use ldoce5viewer_tui::search::incremental::{
    normalize_index_key, IncrementalError, IncrementalMaker, IncrementalSearcher,
};

const ITEMS: &[(&str, &str, &str, &str, u8)] = &[
    ("apple", "hw", "Apple", "entry/apple", 0),
    ("application", "hw", "Application", "entry/application", 0),
    ("apply", "hw", "Apply", "entry/apply", 1),
    ("banana", "hw", "Banana", "entry/banana", 0),
    ("band", "hw", "Band", "entry/band", 0),
];

fn build_index(items: &[(&str, &str, &str, &str, u8)]) -> Vec<u8> {
    let mut maker = IncrementalMaker::new();
    for &(plain, tc, label, path, prio) in items {
        maker.add_item(plain, tc, label, path, prio).unwrap();
    }
    maker.finalize()
}

fn open_items() -> IncrementalSearcher {
    IncrementalSearcher::open(build_index(ITEMS)).unwrap()
}

#[test]
fn test_prefix_match() {
    let searcher = open_items();
    let results = searcher.search("appl", 10);
    let labels: Vec<&str> = results.iter().map(|r| r.label.as_str()).collect();
    assert!(labels.contains(&"Apple"), "Apple missing");
    assert!(labels.contains(&"Application"), "Application missing");
    assert!(labels.contains(&"Apply"), "Apply missing");
    assert!(!labels.contains(&"Banana"), "Banana should not match");
}

#[test]
fn incremental_test_exact_match() {
    let searcher = open_items();
    let results = searcher.search("banana", 10);
    assert!(!results.is_empty());
    assert_eq!(results[0].label, "Banana");
}

#[test]
fn incremental_test_no_match() {
    let searcher = open_items();
    assert!(searcher.search("zzz", 10).is_empty());
}

#[test]
fn incremental_test_limit() {
    let searcher = open_items();
    let results = searcher.search("a", 2);
    assert!(results.len() <= 2);
}

#[test]
fn test_empty_key() {
    let searcher = open_items();
    assert!(searcher.search("", 10).is_empty());
}

#[test]
fn test_broken_file_too_small() {
    assert!(matches!(IncrementalSearcher::open(vec![0u8; 4]), Err(IncrementalError::TooSmall)));
}

#[test]
fn test_wrong_magic() {
    assert!(matches!(IncrementalSearcher::open(vec![0u8; 16]), Err(IncrementalError::WrongMagic)));
}

#[test]
fn test_result_structure() {
    let searcher = open_items();
    let results = searcher.search("band", 5);
    assert!(!results.is_empty());
    let r = &results[0];
    assert_eq!(r.label, "Band");
    assert_eq!(r.path, "entry/band");
    assert!(!r.plain.is_empty());
}

#[test]
fn incremental_test_normalize_index_key() {
    assert_eq!(normalize_index_key("  Hello  "), "hello");
    assert_eq!(normalize_index_key("café"), "cafe");
    assert_eq!(normalize_index_key("UPPER"), "upper");
    assert_eq!(normalize_index_key(""), "");
    assert_eq!(normalize_index_key("\u{00a9}"), "c");
}

#[test]
fn incremental_field_too_long_is_refused() {
    let mut maker = IncrementalMaker::new();
    let long = "x".repeat(70_000);
    let r = maker.add_item("word", "hw", &long, "/fs/w", 0);
    assert!(matches!(r, Err(IncrementalError::Io(ref m)) if m == "field too long"));
}

#[test]
fn incremental_results_sorted_and_limited() {
    let searcher = open_items();
    let results = searcher.search("ap", 2);
    let labels: Vec<&str> = results.iter().map(|r| r.label.as_str()).collect();
    assert_eq!(labels, vec!["Apple", "Application"]);
}

#[test]
fn incremental_ties_keep_insertion_order() {
    let items: &[(&str, &str, &str, &str, u8)] = &[
        ("run", "hm", "B", "/fs/2", 5),
        ("run", "hm", "A", "/fs/1", 5),
        ("run", "hm", "C", "/fs/3", 4),
        ("ran", "hm", "D", "/fs/4", 9),
    ];
    let searcher = IncrementalSearcher::open(build_index(items)).unwrap();
    let labels: Vec<String> = searcher.search("r", 10).into_iter().map(|r| r.label).collect();
    assert_eq!(labels, vec!["D", "C", "B", "A"]);
}
