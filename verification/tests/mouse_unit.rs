use ldoce5viewer_tui::app::App;
use ldoce5viewer_tui::config::Config;
use ldoce5viewer_tui::mouse::{click_button, mouse_action, rect_contains, split_audio, MouseAction, MouseKind, PaneRect};

fn rect(x: u16, y: u16, width: u16, height: u16) -> PaneRect {
    PaneRect { x, y, width, height }
}

fn buttons() -> Vec<(usize, u16, String, String)> {
    vec![
        (3, 10, "/gb_hwd_pron/a_1".to_owned(), "BrE".to_owned()),
        (3, 20, "/us_hwd_pron/a_2".to_owned(), "AmE".to_owned()),
        (6, 4, "/exa_pron/e_5".to_owned(), "ex".to_owned()),
        (9, 0, "noslash".to_owned(), "x".to_owned()),
    ]
}

#[test]
fn rect_contains_edges() {
    let r = rect(2, 3, 4, 5);
    assert!(rect_contains(r, 2, 3));
    assert!(rect_contains(r, 5, 7));
    assert!(!rect_contains(r, 6, 7));
    assert!(!rect_contains(r, 5, 8));
    assert!(!rect_contains(r, 1, 3));
    assert!(!rect_contains(rect(65535, 65535, 1, 1), 0, 0));
    assert!(rect_contains(rect(65535, 65535, 1, 1), 65535, 65535));
}

#[test]
fn split_audio_paths() {
    assert_eq!(split_audio("/gb_hwd_pron/a_1"), Some(("gb_hwd_pron".to_owned(), "a_1".to_owned())));
    assert_eq!(split_audio("//x/y/z"), Some(("x".to_owned(), "y/z".to_owned())));
    assert_eq!(split_audio("noslash"), None);
    assert_eq!(split_audio("///"), None);
    assert_eq!(split_audio("/a/"), Some(("a".to_owned(), "".to_owned())));
}

#[test]
fn click_prefers_button_on_line() {
    let b = buttons();
    // on line 3, right of both buttons: the first that starts left of the click
    assert_eq!(click_button(&b, 3, 25), Some(0));
    // on line 3, left of both: nearest by column
    assert_eq!(click_button(&b, 3, 5), Some(0));
    assert_eq!(click_button(&b, 4, 19), Some(1));
    // line 5: line 6 is one away, line 3 two away
    assert_eq!(click_button(&b, 5, 0), Some(2));
    // nothing within two lines
    assert_eq!(click_button(&b, 20, 0), None);
    assert_eq!(click_button(&[], 0, 0), None);
}

#[test]
fn mouse_action_panes() {
    let search = rect(0, 0, 80, 3);
    let results = rect(0, 3, 26, 20);
    let content = rect(26, 3, 54, 20);
    let b = buttons();
    let act = |kind, col, row, scroll| mouse_action(kind, col, row, search, results, content, 5, scroll, &b);
    assert_eq!(act(MouseKind::LeftDown, 5, 1, 0), MouseAction::FocusSearch);
    assert_eq!(act(MouseKind::LeftDown, 5, 6, 0), MouseAction::ClickResults(Some(2)));
    assert_eq!(act(MouseKind::LeftDown, 5, 3, 0), MouseAction::ClickResults(Some(0)));
    assert_eq!(act(MouseKind::LeftDown, 5, 12, 0), MouseAction::ClickResults(None));
    // content row 7 is line 3 with no scroll; column 40 is inner column 13
    assert_eq!(
        act(MouseKind::LeftDown, 40, 7, 0),
        MouseAction::ClickContent(Some(("gb_hwd_pron".to_owned(), "a_1".to_owned())))
    );
    assert_eq!(
        act(MouseKind::LeftDown, 50, 4, 6),
        MouseAction::ClickContent(Some(("exa_pron".to_owned(), "e_5".to_owned())))
    );
    assert_eq!(act(MouseKind::LeftDown, 27, 4, 9), MouseAction::ClickContent(None));
    assert_eq!(act(MouseKind::LeftDown, 40, 30, 0), MouseAction::Nothing);
    assert_eq!(act(MouseKind::ScrollDown, 5, 6, 0), MouseAction::ResultsDown);
    assert_eq!(act(MouseKind::ScrollUp, 5, 6, 0), MouseAction::ResultsUp);
    assert_eq!(act(MouseKind::ScrollDown, 40, 6, 0), MouseAction::ContentDown(3));
    assert_eq!(act(MouseKind::ScrollUp, 40, 6, 0), MouseAction::ContentUp(3));
    assert_eq!(act(MouseKind::ScrollUp, 5, 1, 0), MouseAction::Nothing);
    assert_eq!(act(MouseKind::Other, 5, 6, 0), MouseAction::Nothing);
}

#[test]
fn nearest_audio_target_picks_closest_block() {
    let mut app = App::new(Config::default());
    assert_eq!(app.nearest_audio_target(0), None);
    app.audio_buttons = buttons();
    assert_eq!(app.nearest_audio_target(0), Some(("gb_hwd_pron".to_owned(), "a_1".to_owned())));
    assert_eq!(app.nearest_audio_target(5), Some(("exa_pron".to_owned(), "e_5".to_owned())));
    assert_eq!(app.nearest_audio_target(100), None);
}
