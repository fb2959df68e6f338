use ldoce5viewer_tui::app::{App, AppMode};
use ldoce5viewer_tui::config::{AutoPronLanguage, Config};
use ldoce5viewer_tui::content::page::{Block, Inline};
use ldoce5viewer_tui::content::render::Span;
use ldoce5viewer_tui::content::style::{Color, Style, BOLD, ITALIC};
use ldoce5viewer_tui::filters::FilterNode;
use ldoce5viewer_tui::mouse::PaneRect;
use ldoce5viewer_tui::view::{
    compute_layout,    content_scroll_y, content_title, filter_tree_lines, find_bar, overlay_rect, results_title, search_line, status_bar,
    status_left, status_right, suggestion_line,
};

fn texts(v: &[Span]) -> Vec<String> {
    v.iter().map(|s| s.content.clone()).collect()
}

fn plain() -> Style {
    Style { fg: None, bg: None, add_modifier: 0 }
}

fn fg(c: Color) -> Style {
    Style { fg: Some(c), bg: None, add_modifier: 0 }
}

#[test]
fn search_line_short_text() {
    let r = search_line("hello", 2, 20, true);
    assert_eq!(texts(&r), vec!["he", "l", "lo"]);
    assert_eq!(r[1].style, Style { fg: Some(Color::Black), bg: Some(Color::Cyan), add_modifier: BOLD });
    assert_eq!(r[0].style, plain());
    let r = search_line("hello", 5, 20, false);
    assert_eq!(texts(&r), vec!["hello", " ", ""]);
    assert_eq!(r[1].style, plain());
}

#[test]
fn search_line_scrolls_with_cursor() {
    // width 4, cursor at 6: the window starts at 3 and shows "defg"
    let r = search_line("abcdefghij", 6, 4, true);
    assert_eq!(texts(&r), vec!["def", "g", ""]);
    let r = search_line("abcdefghij", 3, 4, true);
    assert_eq!(texts(&r), vec!["abc", "d", ""]);
    let r = search_line("abcdefghij", 1, 4, true);
    assert_eq!(texts(&r), vec!["a", "b", "cd"]);
    let r = search_line("", 0, 1, true);
    assert_eq!(texts(&r), vec!["", " ", ""]);
}

#[test]
fn suggestions_are_joined() {
    let r = suggestion_line(&["colour".to_owned(), "color".to_owned()]);
    assert_eq!(texts(&r), vec!["Did you mean: ", "colour  ·  color"]);
    assert_eq!(r[0].style, fg(Color::Yellow));
    assert_eq!(r[1].style, Style { fg: Some(Color::White), bg: None, add_modifier: ITALIC });
    assert_eq!(texts(&suggestion_line(&[])), vec!["Did you mean: ", ""]);
}

#[test]
fn titles() {
    assert_eq!(results_title(0), " Results (0) ");
    assert_eq!(results_title(123), " Results (123) ");
    let mut app = App::new(Config::default());
    assert_eq!(content_title(&app), " Content ");
    app.current_path = Some("/fs/3.4.6.2".to_owned());
    assert_eq!(content_title(&app), " 3.4.6.2 ");
    let mut b = Block::new(0);
    b.inlines.push(Inline::Headword("  run ".to_owned()));
    app.content_page = Some(vec![b]);
    assert_eq!(content_title(&app), " run ");
    app.content_page = Some(vec![Block::new(0)]);
    assert_eq!(content_title(&app), " 3.4.6.2 ");
}

#[test]
fn scroll_is_clamped() {
    assert_eq!(content_scroll_y(0, 10), 0);
    assert_eq!(content_scroll_y(5, 10), 4);
    assert_eq!(content_scroll_y(50, 10), 10);
    assert_eq!(content_scroll_y(100000, 70000), 70000u32 as u16);
}

#[test]
fn status_bar_parts() {
    let mut app = App::new(Config::default());
    let l = status_left(&app);
    assert_eq!(texts(&l), vec![" SEARCH ", "     "]);
    assert_eq!(l[0].style, Style { fg: Some(Color::White), bg: Some(Color::Blue), add_modifier: BOLD });
    assert!(status_right(&app).is_empty());
    app.mode = AppMode::ContentFocused;
    app.status = "Loaded".to_owned();
    app.is_searching = true;
    app.history.push("/fs/1", "a");
    app.history.push("/fs/2", "b");
    assert_eq!(texts(&status_left(&app)), vec![" CONTENT", " ◀   ", "  Loaded", "  ⟳ Searching…"]);
    app.config.auto_pron = AutoPronLanguage::US;
    app.config.monitor_clipboard = true;
    app.zoom_power = -2;
    app.content_page = Some(vec![Block::new(0), Block::new(0), Block::new(0), Block::new(0)]);
    app.content_scroll = 1;
    let r = status_right(&app);
    assert_eq!(texts(&r), vec!["🔊US ", "📋 ", " zoom:-2 ", " 25% "]);
    assert_eq!(r[3].style, fg(Color::DarkGray));
    app.zoom_power = 3;
    assert_eq!(texts(&status_right(&app))[2], " zoom:+3 ");
}

#[test]
fn status_bar_pads_between_parts() {
    let app = App::new(Config::default());
    // " SEARCH " and "     " take 13 bytes
    let r = status_bar(&app, 20);
    assert_eq!(texts(&r), vec![" SEARCH ", "     ", "       "]);
    let r = status_bar(&app, 5);
    assert_eq!(texts(&r), vec![" SEARCH ", "     ", ""]);
}

#[test]
fn find_bar_counts() {
    let mut app = App::new(Config::default());
    app.find_text = "run".to_owned();
    let r = find_bar(&app);
    assert_eq!(texts(&r), vec!["Find: ", "run", "  ", "No matches"]);
    assert_eq!(r[3].style, fg(Color::Red));
    app.find_matches = vec![2, 5, 9];
    app.find_cursor = 1;
    let r = find_bar(&app);
    assert_eq!(texts(&r), vec!["Find: ", "run", "  ", "2 / 3"]);
    assert_eq!(r[3].style, fg(Color::Green));
}

#[test]
fn overlay_is_centred() {
    let r = overlay_rect(PaneRect { x: 0, y: 0, width: 100, height: 50 });
    assert_eq!(r, PaneRect { x: 15, y: 5, width: 70, height: 40 });
    let r = overlay_rect(PaneRect { x: 2, y: 1, width: 30, height: 8 });
    assert_eq!(r, PaneRect { x: 2, y: 1, width: 40, height: 10 });
}

#[test]
fn filter_tree_rows() {
    let mut leaf = FilterNode::new("Nouns", Some("pos_n"));
    leaf.checked = true;
    let group = FilterNode::new("Part of speech", None).with_children(vec![leaf, FilterNode::new("Verbs", Some("pos_v"))]);
    let r = filter_tree_lines(&[group, FilterNode::new("Other", None)]);
    assert_eq!(texts(&r), vec!["[ ] Part of speech", "  [x] Nouns", "  [ ] Verbs", "[ ] Other"]);
    assert_eq!(r[0].style, Style { fg: None, bg: None, add_modifier: BOLD });
    assert_eq!(r[1].style, plain());
}

#[test]
fn layout_of_panes() {
    let mut app = App::new(Config::default());
    let l = compute_layout(PaneRect { x: 0, y: 0, width: 90, height: 30 }, &app);
    assert_eq!(l.search, PaneRect { x: 0, y: 0, width: 90, height: 3 });
    assert_eq!(l.results, PaneRect { x: 0, y: 3, width: 30, height: 26 });
    assert_eq!(l.content, PaneRect { x: 30, y: 3, width: 60, height: 26 });
    assert_eq!(l.findbar, None);
    assert_eq!(l.status, PaneRect { x: 0, y: 29, width: 90, height: 1 });
    app.mode = AppMode::FindInPage;
    let l = compute_layout(PaneRect { x: 0, y: 0, width: 90, height: 30 }, &app);
    assert_eq!(l.findbar, Some(PaneRect { x: 0, y: 26, width: 90, height: 3 }));
    assert_eq!(l.status, PaneRect { x: 0, y: 29, width: 90, height: 1 });
}
