//! Unit tests of the application state.

use ldoce5viewer_tui::app::{App, AppMode};
use ldoce5viewer_tui::config::Config;
use ldoce5viewer_tui::content::page::{Block, Inline};
use ldoce5viewer_tui::content::style::Style;
use ldoce5viewer_tui::content::types::SearchResultItem;
use ldoce5viewer_tui::history::NavHistory;

fn make_app() -> App {
    App::new(Config::default())
}

/// The zoom factor that the viewer derives from the zoom power.
fn zoom_factor(app: &App) -> f32 {
    1.05f32.powi(app.zoom_power)
}

#[test]
fn test_initial_mode() {
    let app = make_app();
    assert_eq!(app.mode, AppMode::Searching);
}

#[test]
fn test_insert_and_backspace() {
    let mut app = make_app();
    app.set_search_text("");
    app.insert_char('h');
    app.insert_char('i');
    assert_eq!(app.search_text, "hi");
    app.backspace();
    assert_eq!(app.search_text, "h");
    app.backspace();
    assert_eq!(app.search_text, "");
    app.backspace();
    assert_eq!(app.search_text, "");
}

#[test]
fn test_set_search_text() {
    let mut app = make_app();
    app.set_search_text("hello world");
    assert_eq!(app.search_text, "hello world");
    assert_eq!(app.search_cursor, 11);
}

#[test]
fn test_cursor_movement() {
    let mut app = make_app();
    app.set_search_text("abc");
    app.cursor_home();
    assert_eq!(app.search_cursor, 0);
    app.cursor_right();
    assert_eq!(app.search_cursor, 1);
    app.cursor_end();
    assert_eq!(app.search_cursor, 3);
    app.cursor_left();
    assert_eq!(app.search_cursor, 2);
}

fn item(label: &str, path: &str, sortkey: &str) -> SearchResultItem {
    SearchResultItem {
        label: label.into(),
        path: path.into(),
        sortkey: sortkey.into(),
        prio: 0,
        snippet: None,
    }
}

#[test]
fn test_select_next_prev() {
    let mut app = make_app();
    app.results = vec![item("a", "/a", "a"), item("b", "/b", "b"), item("c", "/c", "c")];
    app.select_next();
    assert_eq!(app.selected_row, Some(0));
    app.select_next();
    assert_eq!(app.selected_row, Some(1));
    app.select_prev();
    assert_eq!(app.selected_row, Some(0));
    app.select_prev();
    assert_eq!(app.selected_row, Some(0));
}

#[test]
fn test_nav_history() {
    let mut h = NavHistory::new();
    h.push("/fs/apple", "apple");
    h.push("/fs/banana", "banana");
    assert!(h.can_go_back());
    assert!(!h.can_go_forward());
    let entry = h.go_back().unwrap();
    assert_eq!(entry.path, "/fs/apple");
    assert!(h.can_go_forward());
    let entry = h.go_forward().unwrap();
    assert_eq!(entry.path, "/fs/banana");
}

#[test]
fn test_nav_history_dedup() {
    let mut h = NavHistory::new();
    h.push("/fs/apple", "apple");
    h.push("/fs/apple", "apple");
    assert_eq!(h.entries.len(), 1);
}

#[test]
fn test_nav_history_back_list() {
    let mut h = NavHistory::new();
    h.push("/fs/a", "a");
    h.push("/fs/b", "b");
    h.push("/fs/c", "c");
    let list = h.back_list();
    assert_eq!(list, vec!["/fs/b", "/fs/a"]);
}

#[test]
fn test_zoom() {
    let mut app = make_app();
    assert_eq!(app.zoom_power, 0);
    app.zoom_in();
    assert_eq!(app.zoom_power, 1);
    app.zoom_out();
    app.zoom_out();
    assert_eq!(app.zoom_power, -1);
    app.zoom_reset();
    assert_eq!(app.zoom_power, 0);
    assert!((zoom_factor(&app) - 1.0).abs() < 1e-4);
}

#[test]
fn test_zoom_clamp() {
    let mut app = make_app();
    for _ in 0..30 {
        app.zoom_in();
    }
    assert_eq!(app.zoom_power, 20);
    for _ in 0..30 {
        app.zoom_out();
    }
    assert_eq!(app.zoom_power, -10);
}

fn text_block(t: &str) -> Block {
    Block {
        indent: 0,
        inlines: vec![Inline::Text(t.into(), Style::default())],
        ..Block::default()
    }
}

#[test]
fn test_find_in_page() {
    let mut app = make_app();
    app.content_page = Some(vec![text_block("hello world"), text_block("foo bar"), text_block("hello again")]);
    app.find_in_page("hello");
    assert_eq!(app.find_matches, vec![0, 2]);
    app.find_next();
    assert_eq!(app.find_cursor, 1);
    app.find_prev();
    assert_eq!(app.find_cursor, 0);
}

#[test]
fn app_test_rebuild_results_dedup() {
    let mut app = make_app();
    let item_a = item("A", "/a", "a");
    let item_b = item("B", "/b", "b");
    app.incr_results = vec![item_a.clone()];
    app.fts_results = vec![item_a.clone(), item_b.clone()];
    app.rebuild_results();
    assert_eq!(app.results.len(), 2, "duplicates should be removed");
}

#[test]
fn test_adv_make_filter_string_empty() {
    let app = make_app();
    assert_eq!(app.adv_make_filter_string(), "");
}

#[test]
fn test_adv_make_filter_string_checked() {
    let mut app = make_app();
    if let Some(group) = app.adv_filter_tree.first_mut() {
        if let Some(child) = group.children.first_mut() {
            child.checked = true;
        }
    }
    let filter = app.adv_make_filter_string();
    assert!(filter.contains("asfilter:233"), "filter: {filter}");
}

#[test]
fn test_clipboard_monitor_disabled() {
    let mut app = make_app();
    app.config.monitor_clipboard = false;
    app.handle_clipboard_change("new text");
    assert_eq!(app.search_text, app.config.last_query);
}

#[test]
fn test_clipboard_monitor_enabled() {
    let mut app = make_app();
    app.config.monitor_clipboard = true;
    app.handle_clipboard_change("apple");
    assert_eq!(app.search_text, "apple");
}

#[test]
fn app_new_cursor_counts_characters() {
    let mut cfg = Config::default();
    cfg.last_query = "é".to_owned();
    let app = App::new(cfg);
    assert_eq!(app.search_text, "é");
    assert_eq!(app.search_cursor, 1);
}
