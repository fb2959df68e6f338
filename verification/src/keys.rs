//! What each key does in each mode of the viewer.

use vstd::prelude::*;

use crate::app::AppMode;

verus! {

/// A key as the viewer reads it.
#[derive(Debug, Clone, Copy, PartialEq, Eq, Structural)]
pub enum Key {
    Char(char),
    Esc,
    Tab,
    Enter,
    Backspace,
    Left,
    Right,
    Up,
    Down,
    Home,
    End,
    PageUp,
    PageDown,
    Other,
}

/// No modifier key held.
pub const NO_MODS: u8 = 0;

/// The Shift modifier bit.
pub const SHIFT: u8 = 1;

/// The Control modifier bit.
pub const CONTROL: u8 = 2;

/// The Alt modifier bit.
pub const ALT: u8 = 4;

/// What a key press asks of the viewer.
#[derive(Debug, Clone, Copy, PartialEq, Eq, Structural)]
pub enum KeyAction {
    Nothing,
    Quit,
    SetMode(AppMode),
    /// Leave the search box for the results, search, and preview.
    SearchSubmit,
    /// Delete before the cursor, search, and preview.
    SearchBackspace,
    /// Insert the character, search, and preview.
    SearchInsert(char),
    CursorLeft,
    CursorRight,
    CursorHome,
    CursorEnd,
    /// Leave the search box for the results, select the next, and preview.
    SearchDown,
    /// Select the next result and preview it.
    SelectNext,
    /// Select the previous result and preview it.
    SelectPrev,
    /// Open the selected result in the content pane.
    OpenSelected,
    /// Go back in history and load the page.
    Back,
    /// Go forward in history and load the page.
    Forward,
    ScrollDown(usize),
    ScrollUp(usize),
    ScrollTop,
    ScrollBottom,
    ScrollLeft(u16),
    ScrollRight(u16),
    /// Play the British pronunciation of the current entry.
    PlayBritish,
    /// Play the American pronunciation of the current entry.
    PlayAmerican,
    ToggleWrap,
    /// Play the audio button nearest the scroll position.
    PlayNearest,
    /// Clear the find text and return to the content pane.
    FindClose,
    FindNext,
    FindPrev,
    FindBackspace,
    FindInsert(char),
    /// Search the advanced-search phrase with the checked filters.
    AdvSubmit,
    AdvBackspace,
    AdvInsert(char),
}

/// What key `k` with the modifier bits `m` does while searching.
pub open spec fn searching_action(m: u8, k: Key) -> KeyAction {
    if m == NO_MODS && (k == Key::Esc || k == Key::Tab) {
        KeyAction::SetMode(AppMode::Normal)
    } else if m == NO_MODS && k == Key::Enter {
        KeyAction::SearchSubmit
    } else if m == NO_MODS && k == Key::Backspace {
        KeyAction::SearchBackspace
    } else if m == NO_MODS && k == Key::Left {
        KeyAction::CursorLeft
    } else if m == NO_MODS && k == Key::Right {
        KeyAction::CursorRight
    } else if m == NO_MODS && k == Key::Home {
        KeyAction::CursorHome
    } else if m == NO_MODS && k == Key::End {
        KeyAction::CursorEnd
    } else if m == NO_MODS && k == Key::Down {
        KeyAction::SearchDown
    } else if m == CONTROL && (k == Key::Char('c') || k == Key::Char('q')) {
        KeyAction::Quit
    } else if m == CONTROL && k == Key::Char('a') {
        KeyAction::SetMode(AppMode::AdvancedSearch)
    } else if k is Char {
        KeyAction::SearchInsert(k->Char_0)
    } else {
        KeyAction::Nothing
    }
}

/// What key `k` with the modifier bits `m` does on the result list.
pub open spec fn normal_action(m: u8, k: Key) -> KeyAction {
    if (m == NO_MODS && k == Key::Char('q')) || (m == CONTROL && k == Key::Char('c')) {
        KeyAction::Quit
    } else if m == NO_MODS && k == Key::Tab {
        KeyAction::SetMode(AppMode::ContentFocused)
    } else if m == NO_MODS && (k == Key::Char('/') || k == Key::Char('i')) {
        KeyAction::SetMode(AppMode::Searching)
    } else if (m == NO_MODS || m == CONTROL) && (k == Key::Char('j') || k == Key::Down) {
        KeyAction::SelectNext
    } else if (m == NO_MODS || m == CONTROL) && (k == Key::Char('k') || k == Key::Up) {
        KeyAction::SelectPrev
    } else if m == NO_MODS && (k == Key::Enter || k == Key::Char('l')) {
        KeyAction::OpenSelected
    } else if (m == CONTROL && k == Key::Char('o')) || (m == ALT && k == Key::Left) {
        KeyAction::Back
    } else if (m == CONTROL && k == Key::Char('i')) || (m == ALT && k == Key::Right) {
        KeyAction::Forward
    } else if m == NO_MODS && k == Key::PageDown {
        KeyAction::ScrollDown(20)
    } else if m == NO_MODS && k == Key::PageUp {
        KeyAction::ScrollUp(20)
    } else if m == NO_MODS && k == Key::Char(' ') {
        KeyAction::ScrollDown(10)
    } else if m == SHIFT && k == Key::Char(' ') {
        KeyAction::ScrollUp(10)
    } else if m == NO_MODS && k == Key::Home {
        KeyAction::ScrollTop
    } else if m == NO_MODS && k == Key::End {
        KeyAction::ScrollBottom
    } else if m == CONTROL && k == Key::Char('p') {
        KeyAction::SetMode(AppMode::FindInPage)
    } else if m == CONTROL && k == Key::Char('g') {
        KeyAction::PlayBritish
    } else if m == CONTROL && k == Key::Char('u') {
        KeyAction::PlayAmerican
    } else if m == CONTROL && k == Key::Char('a') {
        KeyAction::SetMode(AppMode::AdvancedSearch)
    } else {
        KeyAction::Nothing
    }
}

/// What key `k` with the modifier bits `m` does in the content pane.
pub open spec fn content_action(m: u8, k: Key) -> KeyAction {
    if (m == NO_MODS && k == Key::Char('q')) || (m == CONTROL && k == Key::Char('c')) {
        KeyAction::Quit
    } else if m == NO_MODS && k == Key::Esc {
        KeyAction::SetMode(AppMode::Normal)
    } else if m == NO_MODS && (k == Key::Tab || k == Key::Char('i')) {
        KeyAction::SetMode(AppMode::Searching)
    } else if m == NO_MODS && k == Key::Char('/') {
        KeyAction::SetMode(AppMode::FindInPage)
    } else if m == NO_MODS && (k == Key::Char('j') || k == Key::Down) {
        KeyAction::ScrollDown(1)
    } else if m == NO_MODS && (k == Key::Char('k') || k == Key::Up) {
        KeyAction::ScrollUp(1)
    } else if m == NO_MODS && (k == Key::Char('h') || k == Key::Left) {
        KeyAction::ScrollLeft(4)
    } else if m == NO_MODS && (k == Key::Char('l') || k == Key::Right) {
        KeyAction::ScrollRight(4)
    } else if m == NO_MODS && (k == Key::Char('g') || k == Key::Home) {
        KeyAction::ScrollTop
    } else if m == NO_MODS && (k == Key::Char('G') || k == Key::End) {
        KeyAction::ScrollBottom
    } else if (m == CONTROL && k == Key::Char('d')) || (m == NO_MODS && k == Key::PageDown) {
        KeyAction::ScrollDown(15)
    } else if (m == CONTROL && k == Key::Char('u')) || (m == NO_MODS && k == Key::PageUp) {
        KeyAction::ScrollUp(15)
    } else if m == NO_MODS && k == Key::Char(' ') {
        KeyAction::ScrollDown(10)
    } else if m == SHIFT && k == Key::Char(' ') {
        KeyAction::ScrollUp(10)
    } else if m == NO_MODS && k == Key::Char('w') {
        KeyAction::ToggleWrap
    } else if m == NO_MODS && k == Key::Enter {
        KeyAction::PlayNearest
    } else if (m == CONTROL && k == Key::Char('o')) || (m == ALT && k == Key::Left) {
        KeyAction::Back
    } else if (m == CONTROL && k == Key::Char('i')) || (m == ALT && k == Key::Right) {
        KeyAction::Forward
    } else {
        KeyAction::Nothing
    }
}

/// What key `k` with the modifier bits `m` does while finding in the page.
pub open spec fn find_action(m: u8, k: Key) -> KeyAction {
    if m == NO_MODS && k == Key::Esc {
        KeyAction::FindClose
    } else if m == NO_MODS && (k == Key::Enter || k == Key::Down) {
        KeyAction::FindNext
    } else if m == NO_MODS && k == Key::Up {
        KeyAction::FindPrev
    } else if m == NO_MODS && k == Key::Backspace {
        KeyAction::FindBackspace
    } else if k is Char {
        KeyAction::FindInsert(k->Char_0)
    } else {
        KeyAction::Nothing
    }
}

/// What key `k` with the modifier bits `m` does in the advanced search.
pub open spec fn adv_action(m: u8, k: Key) -> KeyAction {
    if m == NO_MODS && k == Key::Esc {
        KeyAction::SetMode(AppMode::Normal)
    } else if m == NO_MODS && k == Key::Enter {
        KeyAction::AdvSubmit
    } else if m == NO_MODS && k == Key::Backspace {
        KeyAction::AdvBackspace
    } else if k is Char {
        KeyAction::AdvInsert(k->Char_0)
    } else {
        KeyAction::Nothing
    }
}

/// What key `k` with the modifier bits `m` does in mode `mode`.
pub open spec fn action_of(mode: AppMode, m: u8, k: Key) -> KeyAction {
    match mode {
        AppMode::Searching => searching_action(m, k),
        AppMode::Normal => normal_action(m, k),
        AppMode::ContentFocused => content_action(m, k),
        AppMode::FindInPage => find_action(m, k),
        AppMode::AdvancedSearch => adv_action(m, k),
        AppMode::BuildingIndex => if m == CONTROL && k == Key::Char('c') {
            KeyAction::Quit
        } else {
            KeyAction::Nothing
        },
        AppMode::Quit => KeyAction::Nothing,
    }
}

/// The keys that move the result selection down scroll the content pane
/// down one line, and those that move it up scroll it up one line: `j` and
/// Down go down, `k` and Up go up, whichever pane has the focus.
pub proof fn lemma_content_scrolls_like_list(k: Key)
    ensures
        action_of(AppMode::Normal, NO_MODS, k) == KeyAction::SelectNext ==> action_of(
            AppMode::ContentFocused,
            NO_MODS,
            k,
        ) == KeyAction::ScrollDown(1),
        action_of(AppMode::Normal, NO_MODS, k) == KeyAction::SelectPrev ==> action_of(
            AppMode::ContentFocused,
            NO_MODS,
            k,
        ) == KeyAction::ScrollUp(1),
        (k == Key::Char('j') || k == Key::Down) ==> action_of(AppMode::Normal, NO_MODS, k) == KeyAction::SelectNext,
        (k == Key::Char('k') || k == Key::Up) ==> action_of(AppMode::Normal, NO_MODS, k) == KeyAction::SelectPrev,
        (k == Key::Char('j') || k == Key::Down) ==> action_of(AppMode::ContentFocused, NO_MODS, k)
            == KeyAction::ScrollDown(1),
        (k == Key::Char('k') || k == Key::Up) ==> action_of(AppMode::ContentFocused, NO_MODS, k)
            == KeyAction::ScrollUp(1),
{
}

/// In the content pane, the unmodified keys that scroll come in pairs
/// that scroll the same distance in opposite directions: `j`/`k` and
/// Down/Up by one line, PageDown/PageUp by fifteen.
pub proof fn lemma_content_scroll_pairs(down: Key, up: Key)
    requires
        (down == Key::Char('j') && up == Key::Char('k')) || (down == Key::Down && up == Key::Up) || (down
            == Key::PageDown && up == Key::PageUp),
    ensures
        action_of(AppMode::ContentFocused, NO_MODS, down) matches KeyAction::ScrollDown(n) && action_of(
            AppMode::ContentFocused,
            NO_MODS,
            up,
        ) == KeyAction::ScrollUp(n) && n > 0,
{
}

/// What key `k` with the modifier bits `mods` does in mode `mode`.
pub fn key_action(mode: AppMode, mods: u8, k: Key) -> (r: KeyAction)
    ensures
        r == action_of(mode, mods, k),
{
    let none = mods == NO_MODS;
    let ctrl = mods == CONTROL;
    let alt = mods == ALT;
    let shift = mods == SHIFT;
    match mode {
        AppMode::Searching => {
            if none && (k == Key::Esc || k == Key::Tab) {
                KeyAction::SetMode(AppMode::Normal)
            } else if none && k == Key::Enter {
                KeyAction::SearchSubmit
            } else if none && k == Key::Backspace {
                KeyAction::SearchBackspace
            } else if none && k == Key::Left {
                KeyAction::CursorLeft
            } else if none && k == Key::Right {
                KeyAction::CursorRight
            } else if none && k == Key::Home {
                KeyAction::CursorHome
            } else if none && k == Key::End {
                KeyAction::CursorEnd
            } else if none && k == Key::Down {
                KeyAction::SearchDown
            } else if ctrl && (k == Key::Char('c') || k == Key::Char('q')) {
                KeyAction::Quit
            } else if ctrl && k == Key::Char('a') {
                KeyAction::SetMode(AppMode::AdvancedSearch)
            } else {
                match k {
                    Key::Char(c) => KeyAction::SearchInsert(c),
                    _ => KeyAction::Nothing,
                }
            }
        },
        AppMode::Normal => {
            if (none && k == Key::Char('q')) || (ctrl && k == Key::Char('c')) {
                KeyAction::Quit
            } else if none && k == Key::Tab {
                KeyAction::SetMode(AppMode::ContentFocused)
            } else if none && (k == Key::Char('/') || k == Key::Char('i')) {
                KeyAction::SetMode(AppMode::Searching)
            } else if (none || ctrl) && (k == Key::Char('j') || k == Key::Down) {
                KeyAction::SelectNext
            } else if (none || ctrl) && (k == Key::Char('k') || k == Key::Up) {
                KeyAction::SelectPrev
            } else if none && (k == Key::Enter || k == Key::Char('l')) {
                KeyAction::OpenSelected
            } else if (ctrl && k == Key::Char('o')) || (alt && k == Key::Left) {
                KeyAction::Back
            } else if (ctrl && k == Key::Char('i')) || (alt && k == Key::Right) {
                KeyAction::Forward
            } else if none && k == Key::PageDown {
                KeyAction::ScrollDown(20)
            } else if none && k == Key::PageUp {
                KeyAction::ScrollUp(20)
            } else if none && k == Key::Char(' ') {
                KeyAction::ScrollDown(10)
            } else if shift && k == Key::Char(' ') {
                KeyAction::ScrollUp(10)
            } else if none && k == Key::Home {
                KeyAction::ScrollTop
            } else if none && k == Key::End {
                KeyAction::ScrollBottom
            } else if ctrl && k == Key::Char('p') {
                KeyAction::SetMode(AppMode::FindInPage)
            } else if ctrl && k == Key::Char('g') {
                KeyAction::PlayBritish
            } else if ctrl && k == Key::Char('u') {
                KeyAction::PlayAmerican
            } else if ctrl && k == Key::Char('a') {
                KeyAction::SetMode(AppMode::AdvancedSearch)
            } else {
                KeyAction::Nothing
            }
        },
        AppMode::ContentFocused => {
            if (none && k == Key::Char('q')) || (ctrl && k == Key::Char('c')) {
                KeyAction::Quit
            } else if none && k == Key::Esc {
                KeyAction::SetMode(AppMode::Normal)
            } else if none && (k == Key::Tab || k == Key::Char('i')) {
                KeyAction::SetMode(AppMode::Searching)
            } else if none && k == Key::Char('/') {
                KeyAction::SetMode(AppMode::FindInPage)
            } else if none && (k == Key::Char('j') || k == Key::Down) {
                KeyAction::ScrollDown(1)
            } else if none && (k == Key::Char('k') || k == Key::Up) {
                KeyAction::ScrollUp(1)
            } else if none && (k == Key::Char('h') || k == Key::Left) {
                KeyAction::ScrollLeft(4)
            } else if none && (k == Key::Char('l') || k == Key::Right) {
                KeyAction::ScrollRight(4)
            } else if none && (k == Key::Char('g') || k == Key::Home) {
                KeyAction::ScrollTop
            } else if none && (k == Key::Char('G') || k == Key::End) {
                KeyAction::ScrollBottom
            } else if (ctrl && k == Key::Char('d')) || (none && k == Key::PageDown) {
                KeyAction::ScrollDown(15)
            } else if (ctrl && k == Key::Char('u')) || (none && k == Key::PageUp) {
                KeyAction::ScrollUp(15)
            } else if none && k == Key::Char(' ') {
                KeyAction::ScrollDown(10)
            } else if shift && k == Key::Char(' ') {
                KeyAction::ScrollUp(10)
            } else if none && k == Key::Char('w') {
                KeyAction::ToggleWrap
            } else if none && k == Key::Enter {
                KeyAction::PlayNearest
            } else if (ctrl && k == Key::Char('o')) || (alt && k == Key::Left) {
                KeyAction::Back
            } else if (ctrl && k == Key::Char('i')) || (alt && k == Key::Right) {
                KeyAction::Forward
            } else {
                KeyAction::Nothing
            }
        },
        AppMode::FindInPage => {
            if none && k == Key::Esc {
                KeyAction::FindClose
            } else if none && (k == Key::Enter || k == Key::Down) {
                KeyAction::FindNext
            } else if none && k == Key::Up {
                KeyAction::FindPrev
            } else if none && k == Key::Backspace {
                KeyAction::FindBackspace
            } else {
                match k {
                    Key::Char(c) => KeyAction::FindInsert(c),
                    _ => KeyAction::Nothing,
                }
            }
        },
        AppMode::AdvancedSearch => {
            if none && k == Key::Esc {
                KeyAction::SetMode(AppMode::Normal)
            } else if none && k == Key::Enter {
                KeyAction::AdvSubmit
            } else if none && k == Key::Backspace {
                KeyAction::AdvBackspace
            } else {
                match k {
                    Key::Char(c) => KeyAction::AdvInsert(c),
                    _ => KeyAction::Nothing,
                }
            }
        },
        AppMode::BuildingIndex => {
            if ctrl && k == Key::Char('c') {
                KeyAction::Quit
            } else {
                KeyAction::Nothing
            }
        },
        AppMode::Quit => KeyAction::Nothing,
    }
}

} // verus!
