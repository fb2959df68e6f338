use ldoce5viewer_tui::search::fulltext::{plan_fulltext_query, sort_fulltext_results, FulltextResult, MAX_HITS};

fn hit(label: &str, sortkey: &str, prio: u64) -> FulltextResult {
    FulltextResult { label: label.to_owned(), path: format!("/fs/{label}"), sortkey: sortkey.to_owned(), prio, highlight: None }
}

fn labels(v: &[FulltextResult]) -> Vec<String> {
    v.iter().map(|r| r.label.clone()).collect()
}

#[test]
fn hits_sorted_by_key_then_priority() {
    let v = vec![hit("c", "cat", 0), hit("a2", "apple", 300), hit("b", "banana", 0), hit("a1", "apple", 7)];
    assert_eq!(labels(&sort_fulltext_results(v)), vec!["a1", "a2", "b", "c"]);
}

#[test]
fn equal_hits_keep_their_order() {
    let v = vec![hit("x", "k", 1), hit("y", "k", 1), hit("z", "k", 0)];
    assert_eq!(labels(&sort_fulltext_results(v)), vec!["z", "x", "y"]);
    assert!(sort_fulltext_results(Vec::new()).is_empty());
}

#[test]
fn query_plan_clauses() {
    let p = plan_fulltext_query(Some("run"), &["hm", "hp"], Some(""), None);
    assert_eq!(p.content.as_deref(), Some("run"));
    assert_eq!(p.itemtypes, vec!["hm".to_owned(), "hp".to_owned()]);
    assert_eq!(p.asfilter, None);
    assert_eq!(p.cap, MAX_HITS);
    let p = plan_fulltext_query(Some(""), &[], Some("asfilter:pos_n"), Some(5));
    assert_eq!(p.content, None);
    assert!(p.itemtypes.is_empty());
    assert_eq!(p.asfilter.as_deref(), Some("asfilter:pos_n"));
    assert_eq!(p.cap, 5);
    assert_eq!(plan_fulltext_query(None, &[], None, Some(20000)).cap, 10000);
}
