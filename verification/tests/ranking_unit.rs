use ldoce5viewer_tui::content::types::SearchResultItem;
use ldoce5viewer_tui::search::ranking::rank_incremental_results;

fn item(label: &str, sortkey: &str, prio: u8) -> SearchResultItem {
    SearchResultItem {
        label: label.to_owned(),
        path: format!("/fs/{label}"),
        sortkey: sortkey.to_owned(),
        prio,
        snippet: None,
    }
}

fn labels(v: &[SearchResultItem]) -> Vec<String> {
    v.iter().map(|r| r.label.clone()).collect()
}

#[test]
fn ranking_puts_exact_match_first() {
    let items = vec![item("apple", "apple", 0), item("app", "app", 0), item("apply", "apply", 0)];
    let r = rank_incremental_results(items, "App");
    assert_eq!(labels(&r), vec!["app", "apple", "apply"]);
    let items = vec![item("apply", "apply", 0), item("apple", "apple", 0), item("app", "app", 0)];
    let r = rank_incremental_results(items, "apple");
    assert_eq!(labels(&r), vec!["apple", "app", "apply"]);
}

#[test]
fn ranking_orders_by_key_then_priority() {
    let items = vec![item("b1", "b", 5), item("a", "a", 9), item("b0", "b", 1)];
    let r = rank_incremental_results(items, "zzz");
    assert_eq!(labels(&r), vec!["a", "b0", "b1"]);
}

#[test]
fn ranking_keeps_order_of_ties() {
    let items = vec![item("x2", "x", 3), item("x1", "x", 3), item("x3", "x", 3)];
    let r = rank_incremental_results(items, "x");
    assert_eq!(labels(&r), vec!["x2", "x1", "x3"]);
}

#[test]
fn ranking_of_nothing_is_empty() {
    assert!(rank_incremental_results(Vec::new(), "a").is_empty());
}
