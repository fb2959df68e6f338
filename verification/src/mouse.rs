//! What a mouse event on the screen asks for: the pane under the pointer,
//! the result row that was clicked, or the audio button of the content
//! pane that a click plays.

use vstd::prelude::*;

use crate::content::types::{copy_range, first_index_of, position_of, strip_leading_slashes};
use crate::text::{chars_of, string_from_chars};

verus! {

/// A rectangle of screen cells: its top-left corner and its size.
#[derive(Clone, Copy, Debug, PartialEq, Eq, Structural)]
pub struct PaneRect {
    pub x: u16,
    pub y: u16,
    pub width: u16,
    pub height: u16,
}

/// The kinds of mouse event the viewer answers.
#[derive(Clone, Copy, Debug, PartialEq, Eq, Structural)]
pub enum MouseKind {
    LeftDown,
    ScrollDown,
    ScrollUp,
    Other,
}

/// What a mouse event asks of the viewer.
#[derive(Clone, Debug, PartialEq, Eq)]
pub enum MouseAction {
    /// Focus the search field.
    FocusSearch,
    /// Focus the result list, and select and preview the given row if the
    /// click fell on one.
    ClickResults(Option<usize>),
    /// Focus the content pane, and play the given archive and file if the
    /// click found an audio button.
    ClickContent(Option<(String, String)>),
    /// Move the result selection down one row and preview it.
    ResultsDown,
    /// Move the result selection up one row and preview it.
    ResultsUp,
    /// Scroll the content down by the given number of lines.
    ContentDown(usize),
    /// Scroll the content up by the given number of lines.
    ContentUp(usize),
    /// Nothing to do.
    Nothing,
}

/// The cell at column `col`, row `row` lies inside `r`.
pub open spec fn spec_rect_contains(r: PaneRect, col: u16, row: u16) -> bool {
    r.x <= col < r.x + r.width && r.y <= row < r.y + r.height
}

/// Whether the cell at column `col`, row `row` lies inside `r`.
pub fn rect_contains(r: PaneRect, col: u16, row: u16) -> (b: bool)
    ensures
        b == spec_rect_contains(r, col, row),
{
    let right: u32 = r.x as u32 + r.width as u32;
    let bottom: u32 = r.y as u32 + r.height as u32;
    r.x <= col && (col as u32) < right && r.y <= row && (row as u32) < bottom
}

/// The line, column or row `p` counted from the first one inside the
/// border of a pane that starts at `start`; 0 on the border or before it.
pub open spec fn inner_offset(p: u16, start: u16) -> int {
    if p > start + 1 {
        p - (start + 1)
    } else {
        0
    }
}

fn inner_offset_of(p: u16, start: u16) -> (r: u16)
    ensures
        r == inner_offset(p, start),
{
    let s: u32 = start as u32 + 1;
    if (p as u32) > s {
        (p as u32 - s) as u16
    } else {
        0
    }
}

/// The distance between `a` and `b`.
pub open spec fn dist(a: int, b: int) -> int {
    if a >= b {
        a - b
    } else {
        b - a
    }
}

/// The first of the first `k` audio buttons that sits on line `line` and
/// starts at or left of column `col`.
pub open spec fn exact_button(bs: Seq<(usize, u16, String, String)>, line: usize, col: u16, k: int) -> Option<int>
    decreases k,
{
    if k <= 0 {
        None
    } else {
        match exact_button(bs, line, col, k - 1) {
            Some(i) => Some(i),
            None => if bs[k - 1].0 == line && col >= bs[k - 1].1 {
                Some(k - 1)
            } else {
                None
            },
        }
    }
}

/// How far an audio button is from the click: a thousand per line, one
/// per column.
pub open spec fn button_score(b: (usize, u16, String, String), line: usize, col: u16) -> int {
    dist(b.0 as int, line as int) * 1000 + dist(b.1 as int, col as int)
}

/// Of the first `k` audio buttons within two lines of `line`, the first
/// one with the lowest score.
pub open spec fn nearest_scored_button(bs: Seq<(usize, u16, String, String)>, line: usize, col: u16, k: int) -> Option<int>
    decreases k,
{
    if k <= 0 {
        None
    } else {
        let prev = nearest_scored_button(bs, line, col, k - 1);
        if dist(bs[k - 1].0 as int, line as int) > 2 {
            prev
        } else {
            match prev {
                Some(p) => if button_score(bs[k - 1], line, col) < button_score(bs[p], line, col) {
                    Some(k - 1)
                } else {
                    Some(p)
                },
                None => Some(k - 1),
            }
        }
    }
}

/// The audio button that a click on line `line`, column `col` chooses:
/// one on that line that starts at or left of the click, else the nearest
/// within two lines.
pub open spec fn clicked_button(bs: Seq<(usize, u16, String, String)>, line: usize, col: u16) -> Option<int> {
    match exact_button(bs, line, col, bs.len() as int) {
        Some(i) => Some(i),
        None => nearest_scored_button(bs, line, col, bs.len() as int),
    }
}

/// The archive and file named by an audio path: without its leading
/// slashes, the part before the first `/` and the rest; none without a
/// `/`.
pub open spec fn split_audio_path(p: Seq<char>) -> Option<(Seq<char>, Seq<char>)> {
    let t = strip_leading_slashes(p);
    match first_index_of(t, '/') {
        Some(i) => Some((t.subrange(0, i), t.subrange(i + 1, t.len() as int))),
        None => None,
    }
}

/// The archive and file that a click on line `line`, column `col` plays.
pub open spec fn clicked_audio(bs: Seq<(usize, u16, String, String)>, line: usize, col: u16) -> Option<(Seq<char>, Seq<char>)> {
    match clicked_button(bs, line, col) {
        Some(i) => split_audio_path(bs[i].2@),
        None => None,
    }
}

/// `a` is what the event `kind` at column `col`, row `row` asks for, given
/// the search, result and content panes, the number of result rows, the
/// first content line shown, and the audio buttons (block, column, path,
/// title).
pub open spec fn is_mouse_action(
    a: MouseAction,
    kind: MouseKind,
    col: u16,
    row: u16,
    search: PaneRect,
    results: PaneRect,
    content: PaneRect,
    n_results: usize,
    content_scroll: usize,
    buttons: Seq<(usize, u16, String, String)>,
) -> bool {
    match kind {
        MouseKind::LeftDown => if spec_rect_contains(search, col, row) {
            a is FocusSearch
        } else if spec_rect_contains(results, col, row) {
            let r = inner_offset(row, results.y);
            a == MouseAction::ClickResults(
                if r < n_results {
                    Some(r as usize)
                } else {
                    None
                },
            )
        } else if spec_rect_contains(content, col, row) {
            let line = (content_scroll + inner_offset(row, content.y)) as usize;
            let c = inner_offset(col, content.x) as u16;
            match clicked_audio(buttons, line, c) {
                None => a == MouseAction::ClickContent(None),
                Some((x, f)) => a matches MouseAction::ClickContent(Some((ra, rf))) && ra@ == x
                    && rf@ == f,
            }
        } else {
            a is Nothing
        },
        MouseKind::ScrollDown => if spec_rect_contains(results, col, row) {
            a is ResultsDown
        } else if spec_rect_contains(content, col, row) {
            a == MouseAction::ContentDown(3)
        } else {
            a is Nothing
        },
        MouseKind::ScrollUp => if spec_rect_contains(results, col, row) {
            a is ResultsUp
        } else if spec_rect_contains(content, col, row) {
            a == MouseAction::ContentUp(3)
        } else {
            a is Nothing
        },
        MouseKind::Other => a is Nothing,
    }
}

/// The length of the leading slashes of `s`.
fn leading_slashes(s: &[char]) -> (a: usize)
    ensures
        a <= s@.len(),
        s@.subrange(a as int, s@.len() as int) == strip_leading_slashes(s@),
{
    let n = s.len();
    let mut a: usize = 0;
    assert(s@.subrange(0, n as int) =~= s@);
    while a < n && s[a] == '/'
        invariant
            a <= n,
            n == s@.len(),
            strip_leading_slashes(s@.subrange(a as int, n as int)) == strip_leading_slashes(s@),
        decreases n - a,
    {
        assert(s@.subrange(a as int, n as int).drop_first() =~= s@.subrange(a + 1, n as int));
        a = a + 1;
    }
    a
}

/// Splits an audio path into its archive and file name, as
/// [`split_audio_path`] says.
pub fn split_audio(path: &str) -> (r: Option<(String, String)>)
    ensures
        match split_audio_path(path@) {
            None => r is None,
            Some((a, f)) => r matches Some((ra, rf)) && ra@ == a && rf@ == f,
        },
{
    let pc = chars_of(path);
    let s = pc.as_slice();
    let n = s.len();
    let a = leading_slashes(s);
    let ghost t = s@.subrange(a as int, n as int);
    match position_of(s, a, '/') {
        None => None,
        Some(k) => {
            let archive = copy_range(s, a, k);
            let file = copy_range(s, k + 1, n);
            proof {
                let i = (k - a) as int;
                assert(archive@ =~= t.subrange(0, i));
                assert(file@ =~= t.subrange(i + 1, t.len() as int));
            }
            Some((string_from_chars(archive.as_slice()), string_from_chars(file.as_slice())))
        },
    }
}

/// The audio button that a click on line `line`, column `col` chooses, as
/// [`clicked_button`] says.
pub fn click_button(buttons: &[(usize, u16, String, String)], line: usize, col: u16) -> (r: Option<usize>)
    ensures
        r matches Some(i) ==> i < buttons@.len(),
        clicked_button(buttons@, line, col) matches Some(i) ==> 0 <= i < buttons@.len(),
        match clicked_button(buttons@, line, col) {
            None => r is None,
            Some(i) => r == Some(i as usize),
        },
{
    proof {
        lemma_button_bounds(buttons@, line, col, buttons@.len() as int);
    }
    let n = buttons.len();
    let mut i: usize = 0;
    while i < n
        invariant
            i <= n,
            n == buttons@.len(),
            exact_button(buttons@, line, col, i as int) is None,
        decreases n - i,
    {
        if buttons[i].0 == line && col >= buttons[i].1 {
            proof {
                lemma_exact_button_stays(buttons@, line, col, i as int + 1, n as int);
            }
            return Some(i);
        }
        i = i + 1;
    }
    assert(exact_button(buttons@, line, col, n as int) is None);
    let mut best: Option<usize> = None;
    let mut best_score: usize = 0;
    i = 0;
    while i < n
        invariant
            i <= n,
            n == buttons@.len(),
            exact_button(buttons@, line, col, n as int) is None,
            match nearest_scored_button(buttons@, line, col, i as int) {
                None => best is None,
                Some(p) => best == Some(p as usize) && 0 <= p < i && best_score == button_score(
                    buttons@[p],
                    line,
                    col,
                ),
            },
        decreases n - i,
    {
        let b = buttons[i].0;
        let rd: usize = if b >= line {
            b - line
        } else {
            line - b
        };
        if rd <= 2 {
            let c = buttons[i].1;
            let cd: usize = if c >= col {
                (c - col) as usize
            } else {
                (col - c) as usize
            };
            let score: usize = rd * 1000 + cd;
            match best {
                None => {
                    best = Some(i);
                    best_score = score;
                },
                Some(_) => {
                    if score < best_score {
                        best = Some(i);
                        best_score = score;
                    }
                },
            }
        }
        i = i + 1;
    }
    best
}

proof fn lemma_button_bounds(bs: Seq<(usize, u16, String, String)>, line: usize, col: u16, k: int)
    ensures
        exact_button(bs, line, col, k) matches Some(i) ==> 0 <= i < k,
        nearest_scored_button(bs, line, col, k) matches Some(i) ==> 0 <= i < k,
    decreases k,
{
    if k > 0 {
        lemma_button_bounds(bs, line, col, k - 1);
    }
}

proof fn lemma_exact_button_stays(bs: Seq<(usize, u16, String, String)>, line: usize, col: u16, k: int, n: int)
    requires
        1 <= k <= n,
        exact_button(bs, line, col, k) == Some(k - 1),
    ensures
        exact_button(bs, line, col, n) == Some(k - 1),
    decreases n - k,
{
    if k < n {
        lemma_exact_button_stays(bs, line, col, k, n - 1);
    }
}

/// What the event `kind` at column `col`, row `row` asks for, as
/// [`is_mouse_action`] says.
pub fn mouse_action(
    kind: MouseKind,
    col: u16,
    row: u16,
    search: PaneRect,
    results: PaneRect,
    content: PaneRect,
    n_results: usize,
    content_scroll: usize,
    buttons: &[(usize, u16, String, String)],
) -> (a: MouseAction)
    requires
        content_scroll + row <= usize::MAX,
    ensures
        is_mouse_action(
            a,
            kind,
            col,
            row,
            search,
            results,
            content,
            n_results,
            content_scroll,
            buttons@,
        ),
{
    match kind {
        MouseKind::LeftDown => {
            if rect_contains(search, col, row) {
                MouseAction::FocusSearch
            } else if rect_contains(results, col, row) {
                let r = inner_offset_of(row, results.y) as usize;
                MouseAction::ClickResults(
                    if r < n_results {
                        Some(r)
                    } else {
                        None
                    },
                )
            } else if rect_contains(content, col, row) {
                let line = content_scroll + inner_offset_of(row, content.y) as usize;
                let c = inner_offset_of(col, content.x);
                let target = match click_button(buttons, line, c) {
                    Some(i) => split_audio(buttons[i].2.as_str()),
                    None => None,
                };
                MouseAction::ClickContent(target)
            } else {
                MouseAction::Nothing
            }
        },
        MouseKind::ScrollDown => {
            if rect_contains(results, col, row) {
                MouseAction::ResultsDown
            } else if rect_contains(content, col, row) {
                MouseAction::ContentDown(3)
            } else {
                MouseAction::Nothing
            }
        },
        MouseKind::ScrollUp => {
            if rect_contains(results, col, row) {
                MouseAction::ResultsUp
            } else if rect_contains(content, col, row) {
                MouseAction::ContentUp(3)
            } else {
                MouseAction::Nothing
            }
        },
        MouseKind::Other => MouseAction::Nothing,
    }
}

} // verus!
