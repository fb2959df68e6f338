//! Tests of the key bindings.

use ldoce5viewer_tui::app::AppMode;
use ldoce5viewer_tui::keys::{key_action, Key, KeyAction, ALT, CONTROL, NO_MODS, SHIFT};

#[test]
fn keys_searching() {
    assert_eq!(key_action(AppMode::Searching, NO_MODS, Key::Char('a')), KeyAction::SearchInsert('a'));
    assert_eq!(key_action(AppMode::Searching, SHIFT, Key::Char('A')), KeyAction::SearchInsert('A'));
    assert_eq!(key_action(AppMode::Searching, CONTROL, Key::Char('a')), KeyAction::SetMode(AppMode::AdvancedSearch));
    assert_eq!(key_action(AppMode::Searching, CONTROL, Key::Char('q')), KeyAction::Quit);
    assert_eq!(key_action(AppMode::Searching, NO_MODS, Key::Enter), KeyAction::SearchSubmit);
    assert_eq!(key_action(AppMode::Searching, NO_MODS, Key::PageUp), KeyAction::Nothing);
}

#[test]
fn keys_result_list_and_content() {
    assert_eq!(key_action(AppMode::Normal, NO_MODS, Key::Char('q')), KeyAction::Quit);
    assert_eq!(key_action(AppMode::Normal, CONTROL, Key::Down), KeyAction::SelectNext);
    assert_eq!(key_action(AppMode::Normal, ALT, Key::Left), KeyAction::Back);
    assert_eq!(key_action(AppMode::Normal, SHIFT, Key::Char(' ')), KeyAction::ScrollUp(10));
    assert_eq!(key_action(AppMode::ContentFocused, NO_MODS, Key::Char('G')), KeyAction::ScrollBottom);
    assert_eq!(key_action(AppMode::ContentFocused, CONTROL, Key::Char('u')), KeyAction::ScrollUp(15));
    assert_eq!(key_action(AppMode::Normal, CONTROL, Key::Char('u')), KeyAction::PlayAmerican);
}

#[test]
fn keys_find_and_advanced() {
    assert_eq!(key_action(AppMode::FindInPage, NO_MODS, Key::Esc), KeyAction::FindClose);
    assert_eq!(key_action(AppMode::FindInPage, NO_MODS, Key::Char('x')), KeyAction::FindInsert('x'));
    assert_eq!(key_action(AppMode::AdvancedSearch, NO_MODS, Key::Enter), KeyAction::AdvSubmit);
    assert_eq!(key_action(AppMode::BuildingIndex, CONTROL, Key::Char('c')), KeyAction::Quit);
    assert_eq!(key_action(AppMode::BuildingIndex, NO_MODS, Key::Char('c')), KeyAction::Nothing);
    assert_eq!(key_action(AppMode::Quit, NO_MODS, Key::Enter), KeyAction::Nothing);
}
