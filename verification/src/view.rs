//! What the panes of the viewer show, as styled text: the search line with
//! its cursor, the titles of the result list and the content pane, the
//! status bar, the find bar and the advanced-search overlay.

use vstd::prelude::*;
use ratatui::layout::{Constraint, Direction, Layout, Rect};
use vstd::utf8::{char_is_scalar, encode_scalar, encode_utf8, has_width_1_encoding, has_width_2_encoding, has_width_3_encoding, has_width_4_encoding};

use crate::app::{App, AppMode, join_with, page_inlines};
use crate::config::AutoPronLanguage;
use crate::history::{history_can_back, history_can_forward};
use crate::content::render::{Span, raw, spaces, span_view, spans_view};
use crate::content::style::{Color, Style, BOLD, ITALIC};
use crate::content::types::{copy_range, strip_leading_slashes};
use crate::filters::FilterNode;
use crate::mouse::PaneRect;
use crate::labels::{extract_headword, first_headword, last_segment, path_to_title};
use crate::search::incremental::{decimal_string, spec_decimal};
use crate::text::{chars_of, string_from_chars};

verus! {

/// The style with foreground `c` and modifiers `m`.
pub open spec fn fg_named(c: Color, m: u16) -> Style {
    Style { fg: Some(c), bg: None, add_modifier: m }
}

/// The style with foreground `f`, background `b` and modifiers `m`.
pub open spec fn fg_bg_named(f: Color, b: Color, m: u16) -> Style {
    Style { fg: Some(f), bg: Some(b), add_modifier: m }
}

fn named(fg: Option<Color>, bg: Option<Color>, m: u16) -> (s: Style)
    ensures
        s == (Style { fg: fg, bg: bg, add_modifier: m }),
{
    Style { fg, bg, add_modifier: m }
}

fn min_usize(x: usize, n: usize) -> (y: usize)
    ensures
        y == if x < n {
            x
        } else {
            n
        },
{
    if x < n {
        x
    } else {
        n
    }
}

fn span(text: &str, style: Style) -> (r: Span)
    ensures
        r.content@ == text@,
        r.style == style,
{
    Span { content: String::from_str(text), style }
}

/// `s` from position `a` to position `b`, both cut to its length.
pub open spec fn clipped(s: Seq<char>, a: int, b: int) -> Seq<char> {
    let n = s.len() as int;
    let lo = if a < n {
        a
    } else {
        n
    };
    let hi = if b < n {
        b
    } else {
        n
    };
    s.subrange(lo, if hi < lo {
        lo
    } else {
        hi
    })
}

/// The first character of the search text shown when the cursor is at
/// `cursor` and the field is `width` wide: the window scrolls so that the
/// cursor stays in its last column.
pub open spec fn window_start(cursor: int, width: int) -> int {
    if cursor + 1 > width {
        cursor + 1 - width
    } else {
        0
    }
}

/// The style of the cursor cell: black on cyan and bold while typing.
pub open spec fn cursor_style(searching: bool) -> Style {
    if searching {
        fg_bg_named(Color::Black, Color::Cyan, BOLD)
    } else {
        Style { fg: None, bg: None, add_modifier: 0 }
    }
}

/// The search line: the visible text before the cursor, the character
/// under the cursor (a space past the end), and the visible text after it.
pub open spec fn search_line_spans(text: Seq<char>, cursor: int, width: int, searching: bool) -> Seq<(Seq<char>, Style)> {
    let st = window_start(cursor, width);
    let under = if cursor < text.len() {
        seq![text[cursor]]
    } else {
        seq![' ']
    };
    seq![
        raw(clipped(text, st, cursor)),
        (under, cursor_style(searching)),
        raw(clipped(text, cursor + 1, st + width)),
    ]
}

/// The search line for `text` with the cursor at character `cursor`, in a
/// field `width` columns wide.
pub fn search_line(text: &str, cursor: usize, width: usize, searching: bool) -> (r: Vec<Span>)
    requires
        width > 0,
        cursor < usize::MAX,
    ensures
        spans_view(r@) == search_line_spans(text@, cursor as int, width as int, searching),
{
    let cs = chars_of(text);
    let s = cs.as_slice();
    let n = s.len();
    let st: usize = if cursor + 1 > width {
        cursor + 1 - width
    } else {
        0
    };
    let end: usize = if st > 0 {
        cursor + 1
    } else {
        width
    };
    let a = min_usize(st, n);
    let b0 = min_usize(cursor, n);
    let b = if b0 < a {
        a
    } else {
        b0
    };
    let before = copy_range(s, a, b);
    let c1 = min_usize(cursor + 1, n);
    let e0 = min_usize(end, n);
    let e = if e0 < c1 {
        c1
    } else {
        e0
    };
    let after = copy_range(s, c1, e);
    let mut under: Vec<char> = Vec::new();
    if cursor < n {
        under.push(s[cursor]);
    } else {
        under.push(' ');
    }
    let cstyle = if searching {
        named(Some(Color::Black), Some(Color::Cyan), BOLD)
    } else {
        named(None, None, 0)
    };
    let mut r: Vec<Span> = Vec::new();
    r.push(Span { content: string_from_chars(before.as_slice()), style: named(None, None, 0) });
    r.push(Span { content: string_from_chars(under.as_slice()), style: cstyle });
    r.push(Span { content: string_from_chars(after.as_slice()), style: named(None, None, 0) });
    proof {
        assert(under@ =~= (if cursor < n {
            seq![text@[cursor as int]]
        } else {
            seq![' ']
        }));
        assert(spans_view(r@) =~= search_line_spans(text@, cursor as int, width as int, searching));
    }
    r
}

/// The line of spelling suggestions below the search field.
pub open spec fn suggestion_spans(sugs: Seq<Seq<char>>) -> Seq<(Seq<char>, Style)> {
    seq![
        ("Did you mean: "@, fg_named(Color::Yellow, 0)),
        (join_with(sugs, "  ·  "@), fg_named(Color::White, ITALIC)),
    ]
}

/// The spelling suggestions `sugs`, joined, after "Did you mean: ".
pub fn suggestion_line(sugs: &[String]) -> (r: Vec<Span>)
    ensures
        spans_view(r@) == suggestion_spans(sugs@.map_values(|s: String| s@)),
{
    let ghost sv = sugs@.map_values(|s: String| s@);
    let mut joined = String::new();
    let mut i: usize = 0;
    while i < sugs.len()
        invariant
            i <= sugs@.len(),
            sv == sugs@.map_values(|s: String| s@),
            joined@ == join_with(sv.take(i as int), "  ·  "@),
        decreases sugs@.len() - i,
    {
        if i > 0 {
            joined.append("  ·  ");
        }
        joined.append(sugs[i].as_str());
        i = i + 1;
        proof {
            assert(sv.take(i as int).drop_last() =~= sv.take(i - 1));
            if i == 1 {
                assert(sv.take(1)[0] == sv[0]);
            }
        }
    }
    proof {
        assert(sv.take(sugs@.len() as int) =~= sv);
    }
    let mut r: Vec<Span> = Vec::new();
    r.push(span("Did you mean: ", named(Some(Color::Yellow), None, 0)));
    r.push(Span { content: joined, style: named(Some(Color::White), None, ITALIC) });
    assert(spans_view(r@) =~= suggestion_spans(sv));
    r
}

/// The title of the result list holding `n` results.
pub fn results_title(n: usize) -> (r: String)
    ensures
        r@ == " Results ("@ + spec_decimal(n as nat) + ") "@,
{
    let mut t = String::from_str(" Results (");
    let d = decimal_string(n as u64);
    t.append(d.as_str());
    t.append(") ");
    t
}

/// The title of a content path, between spaces; " Content " without one.
pub open spec fn path_title(path: Option<String>) -> Seq<char> {
    match path {
        Some(p) => " "@ + last_segment(strip_leading_slashes(p@)) + " "@,
        None => " Content "@,
    }
}

/// The title of the content pane: the page's headword, else the title of
/// the current path, between spaces.
pub open spec fn spec_content_title(app: App) -> Seq<char> {
    match app.content_page {
        Some(p) => match first_headword(page_inlines(p@, p@.len() as int)) {
            Some(h) => " "@ + h + " "@,
            None => path_title(app.current_path),
        },
        None => path_title(app.current_path),
    }
}

fn title_of_path(path: &Option<String>) -> (r: String)
    ensures
        r@ == path_title(*path),
{
    match path {
        Some(p) => {
            let mut t = String::from_str(" ");
            t.append(path_to_title(p.as_str()));
            t.append(" ");
            t
        },
        None => String::from_str(" Content "),
    }
}

/// The title of the content pane.
pub fn content_title(app: &App) -> (r: String)
    ensures
        r@ == spec_content_title(*app),
{
    match &app.content_page {
        Some(page) => match extract_headword(page.as_slice()) {
            Some(h) => {
                let mut t = String::from_str(" ");
                t.append(h.as_str());
                t.append(" ");
                t
            },
            None => title_of_path(&app.current_path),
        },
        None => title_of_path(&app.current_path),
    }
}

/// The first line of the content shown: `scroll`, at most the last of
/// `total` lines, cut to 16 bits.
pub open spec fn spec_content_scroll_y(total: usize, scroll: usize) -> u16 {
    if total == 0 {
        0
    } else if scroll < total - 1 {
        scroll as u16
    } else {
        (total - 1) as u16
    }
}

/// The first line of the content shown, as [`spec_content_scroll_y`] says.
pub fn content_scroll_y(total: usize, scroll: usize) -> (r: u16)
    ensures
        r == spec_content_scroll_y(total, scroll),
{
    if total == 0 {
        0
    } else if scroll < total - 1 {
        #[verifier::truncate]
        (scroll as u16)
    } else {
        #[verifier::truncate]
        ((total - 1) as u16)
    }
}

/// The label of a mode in the status bar.
pub open spec fn mode_label(m: AppMode) -> Seq<char> {
    match m {
        AppMode::Searching => " SEARCH "@,
        AppMode::Normal => " NORMAL "@,
        AppMode::ContentFocused => " CONTENT"@,
        AppMode::FindInPage => " FIND   "@,
        AppMode::AdvancedSearch => " ADV    "@,
        AppMode::BuildingIndex => " BUILD  "@,
        AppMode::Quit => " QUIT   "@,
    }
}

/// The left part of the status bar: the mode, the back and forward
/// markers, the status message and the searching marker.
pub open spec fn spec_status_left(app: App) -> Seq<(Seq<char>, Style)> {
    let back = if history_can_back(app.history.state()) {
        "◀ "@
    } else {
        "  "@
    };
    let fwd = if history_can_forward(app.history.state()) {
        "▶ "@
    } else {
        "  "@
    };
    let base = seq![
        (mode_label(app.mode), fg_bg_named(Color::White, Color::Blue, BOLD)),
        (" "@ + back + fwd, fg_named(Color::White, 0)),
    ];
    let with_status = if app.status@.len() > 0 {
        base.push(("  "@ + app.status@, fg_named(Color::Yellow, 0)))
    } else {
        base
    };
    if app.is_searching {
        with_status.push(("  ⟳ Searching…"@, fg_named(Color::Cyan, 0)))
    } else {
        with_status
    }
}

/// The marker of the automatic pronunciation setting.
pub open spec fn pron_label(l: AutoPronLanguage) -> Seq<char> {
    match l {
        AutoPronLanguage::Off => ""@,
        AutoPronLanguage::GB => "🔊GB "@,
        AutoPronLanguage::US => "🔊US "@,
    }
}

/// The decimal form of `z` with its sign: "+" before a positive number,
/// "-" before a negative one.
pub open spec fn signed_decimal(z: i32) -> Seq<char> {
    if z > 0 {
        "+"@ + spec_decimal(z as nat)
    } else if z < 0 {
        "-"@ + spec_decimal((-z) as nat)
    } else {
        spec_decimal(0)
    }
}

/// The percentage of the page scrolled past: the first line shown times
/// a hundred, over the number of blocks (at least one).
pub open spec fn scroll_percent(scroll: usize, blocks: int) -> int {
    let total = if blocks > 1 {
        blocks
    } else {
        1
    };
    (scroll * 100) / total
}

/// The right part of the status bar: the automatic pronunciation, the
/// clipboard monitor, the zoom level and the scroll position.
pub open spec fn spec_status_right(app: App) -> Seq<(Seq<char>, Style)> {
    let s0 = if app.config.auto_pron is Off {
        Seq::empty()
    } else {
        seq![(pron_label(app.config.auto_pron), fg_named(Color::Green, 0))]
    };
    let s1 = if app.config.monitor_clipboard {
        s0.push(("📋 "@, fg_named(Color::Magenta, 0)))
    } else {
        s0
    };
    let s2 = if app.zoom_power != 0 {
        s1.push((" zoom:"@ + signed_decimal(app.zoom_power) + " "@, fg_named(Color::White, 0)))
    } else {
        s1
    };
    match app.content_page {
        Some(p) => s2.push(
            (
                " "@ + spec_decimal(scroll_percent(app.content_scroll, p@.len() as int) as nat) + "% "@,
                fg_named(Color::DarkGray, 0),
            ),
        ),
        None => s2,
    }
}

/// The number of UTF-8 bytes of the texts of `v`.
pub open spec fn text_bytes(v: Seq<(Seq<char>, Style)>) -> int
    decreases v.len(),
{
    if v.len() == 0 {
        0
    } else {
        text_bytes(v.drop_last()) + encode_utf8(v.last().0).len()
    }
}

/// The status bar `width` columns wide: the left part, spaces, and the
/// right part; the spaces fill what the two parts leave, counted in bytes.
pub open spec fn spec_status_bar(app: App, width: u16) -> Seq<(Seq<char>, Style)> {
    let l = spec_status_left(app);
    let r = spec_status_right(app);
    let used = text_bytes(l) + text_bytes(r);
    let pad = if width > used {
        width - used
    } else {
        0
    };
    l + seq![raw(spaces(pad))] + r
}

/// The left part of the status bar, as [`spec_status_left`] says.
pub fn status_left(app: &App) -> (r: Vec<Span>)
    ensures
        spans_view(r@) == spec_status_left(*app),
        r@.len() <= 4,
{
    let label = match app.mode {
        AppMode::Searching => " SEARCH ",
        AppMode::Normal => " NORMAL ",
        AppMode::ContentFocused => " CONTENT",
        AppMode::FindInPage => " FIND   ",
        AppMode::AdvancedSearch => " ADV    ",
        AppMode::BuildingIndex => " BUILD  ",
        AppMode::Quit => " QUIT   ",
    };
    let mut r: Vec<Span> = Vec::new();
    r.push(span(label, named(Some(Color::White), Some(Color::Blue), BOLD)));
    let mut nav = String::from_str(" ");
    if app.history.can_go_back() {
        nav.append("◀ ");
    } else {
        nav.append("  ");
    }
    if app.history.can_go_forward() {
        nav.append("▶ ");
    } else {
        nav.append("  ");
    }
    r.push(Span { content: nav, style: named(Some(Color::White), None, 0) });
    if app.status.as_str().unicode_len() > 0 {
        let mut m = String::from_str("  ");
        m.append(app.status.as_str());
        r.push(Span { content: m, style: named(Some(Color::Yellow), None, 0) });
    }
    if app.is_searching {
        r.push(span("  ⟳ Searching…", named(Some(Color::Cyan), None, 0)));
    }
    assert(spans_view(r@) =~= spec_status_left(*app));
    r
}

/// The decimal form of `z` with its sign, as [`signed_decimal`] says.
fn signed_decimal_string(z: i32) -> (r: String)
    ensures
        r@ == signed_decimal(z),
{
    if z > 0 {
        let mut t = String::from_str("+");
        let d = decimal_string(z as u64);
        t.append(d.as_str());
        t
    } else if z < 0 {
        let mut t = String::from_str("-");
        let m: u64 = (0i64 - (z as i64)) as u64;
        let d = decimal_string(m);
        t.append(d.as_str());
        t
    } else {
        decimal_string(0)
    }
}

/// The right part of the status bar, as [`spec_status_right`] says.
pub fn status_right(app: &App) -> (r: Vec<Span>)
    requires
        app.content_page is Some ==> app.content_scroll * 100 <= usize::MAX,
    ensures
        spans_view(r@) == spec_status_right(*app),
        r@.len() <= 4,
{
    let mut r: Vec<Span> = Vec::new();
    match app.config.auto_pron {
        AutoPronLanguage::Off => {},
        AutoPronLanguage::GB => r.push(span("🔊GB ", named(Some(Color::Green), None, 0))),
        AutoPronLanguage::US => r.push(span("🔊US ", named(Some(Color::Green), None, 0))),
    }
    if app.config.monitor_clipboard {
        r.push(span("📋 ", named(Some(Color::Magenta), None, 0)));
    }
    if app.zoom_power != 0 {
        let mut t = String::from_str(" zoom:");
        let d = signed_decimal_string(app.zoom_power);
        t.append(d.as_str());
        t.append(" ");
        r.push(Span { content: t, style: named(Some(Color::White), None, 0) });
    }
    match &app.content_page {
        Some(p) => {
            let total: usize = if p.len() > 1 {
                p.len()
            } else {
                1
            };
            let pct: usize = (app.content_scroll * 100) / total;
            let mut t = String::from_str(" ");
            let d = decimal_string(pct as u64);
            t.append(d.as_str());
            t.append("% ");
            r.push(Span { content: t, style: named(Some(Color::DarkGray), None, 0) });
        },
        None => {},
    }
    assert(spans_view(r@) =~= spec_status_right(*app));
    r
}

/// The number of UTF-8 bytes of `s`.
fn utf8_len(s: &[char]) -> (n: u128)
    ensures
        n == encode_utf8(s@).len(),
        n <= 4 * s@.len(),
{
    let len = s.len();
    let mut i: usize = len;
    let mut n: u128 = 0;
    assert(s@.subrange(len as int, len as int) =~= Seq::<char>::empty());
    while i > 0
        invariant
            i <= len,
            len == s@.len(),
            n == encode_utf8(s@.subrange(i as int, len as int)).len(),
            n <= 4 * (len - i),
        decreases i,
    {
        let c = s[i - 1] as u32;
        let w: u128 = if c <= 0x7f {
            1
        } else if c <= 0x7ff {
            2
        } else if c <= 0xffff {
            3
        } else {
            4
        };
        proof {
            let t = s@.subrange(i - 1, len as int);
            assert(t.drop_first() =~= s@.subrange(i as int, len as int));
            assert(t[0] == s@[i - 1]);
            char_is_scalar(s@[i - 1]);
            if c <= 0x7f {
                assert(has_width_1_encoding(c));
            } else if c <= 0x7ff {
                assert(has_width_2_encoding(c));
            } else if c <= 0xffff {
                assert(has_width_3_encoding(c));
            } else {
                assert(has_width_4_encoding(c));
            }
            assert(encode_scalar(c).len() == w);
        }
        n = n + w;
        i = i - 1;
    }
    assert(s@.subrange(0, len as int) =~= s@);
    n
}

/// The number of UTF-8 bytes of the texts of `v`.
fn spans_bytes(v: &Vec<Span>) -> (n: u128)
    requires
        v@.len() <= 16,
    ensures
        n == text_bytes(spans_view(v@)),
        n <= 64 * (usize::MAX as int),
{
    let mut n: u128 = 0;
    let mut i: usize = 0;
    while i < v.len()
        invariant
            i <= v@.len() <= 16,
            n == text_bytes(spans_view(v@.take(i as int))),
            n <= i * 4 * (usize::MAX as int),
        decreases v@.len() - i,
    {
        let cs = chars_of(v[i].content.as_str());
        let b = utf8_len(cs.as_slice());
        assert(cs@.len() == cs.len());
        proof {
            let t = spans_view(v@.take(i + 1));
            assert(t.drop_last() =~= spans_view(v@.take(i as int)));
            assert(t.last().0 == v@[i as int].content@);
        }
        n = n + b;
        i = i + 1;
    }
    assert(v@.take(v@.len() as int) =~= v@);
    n
}

/// The status bar `width` columns wide, as [`spec_status_bar`] says.
pub fn status_bar(app: &App, width: u16) -> (r: Vec<Span>)
    requires
        app.content_page is Some ==> app.content_scroll * 100 <= usize::MAX,
    ensures
        spans_view(r@) == spec_status_bar(*app, width),
{
    let left = status_left(app);
    let right = status_right(app);
    let used = spans_bytes(&left) + spans_bytes(&right);
    let pad: u16 = if (width as u128) > used {
        (width as u128 - used) as u16
    } else {
        0
    };
    let mut fill = String::new();
    let mut k: u16 = 0;
    while k < pad
        invariant
            k <= pad,
            fill@ == spaces(k as int),
        decreases pad - k,
    {
        let ghost before = fill@;
        fill.append(" ");
        k = k + 1;
        assert(fill@ =~= spaces(k as int)) by {
            reveal_strlit(" ");
        }
    }
    let mut r = left;
    let ghost lv = spans_view(r@);
    r.push(Span { content: fill, style: named(None, None, 0) });
    let mut i: usize = 0;
    let ghost mid = spans_view(r@);
    while i < right.len()
        invariant
            i <= right@.len(),
            spans_view(r@) == mid + spans_view(right@.take(i as int)),
        decreases right@.len() - i,
    {
        let sp = Span { content: right[i].content.clone(), style: right[i].style };
        let ghost r0 = r@;
        r.push(sp);
        assert(spans_view(r@) =~= spans_view(r0).push(span_view(right@[i as int])));
        i = i + 1;
        assert(spans_view(right@.take(i as int)) =~= spans_view(right@.take(i - 1)).push(span_view(right@[i - 1])));
        assert(spans_view(r@) =~= mid + spans_view(right@.take(i as int)));
    }
    assert(right@.take(right@.len() as int) =~= right@);
    assert(spans_view(r@) =~= spec_status_bar(*app, width));
    r
}

/// The find bar: the text sought, then "No matches" or the position of
/// the current match among all matches.
pub open spec fn spec_find_bar(app: App) -> Seq<(Seq<char>, Style)> {
    let n = app.find_matches@.len();
    let head = seq![raw("Find: "@), (app.find_text@, fg_named(Color::White, BOLD)), raw("  "@)];
    if n == 0 {
        head.push(("No matches"@, fg_named(Color::Red, 0)))
    } else {
        head.push(
            (
                spec_decimal((app.find_cursor + 1) as nat) + " / "@ + spec_decimal(n as nat),
                fg_named(Color::Green, 0),
            ),
        )
    }
}

/// The find bar, as [`spec_find_bar`] says.
pub fn find_bar(app: &App) -> (r: Vec<Span>)
    requires
        app.find_cursor < u64::MAX,
    ensures
        spans_view(r@) == spec_find_bar(*app),
{
    let mut r: Vec<Span> = Vec::new();
    r.push(span("Find: ", named(None, None, 0)));
    r.push(Span { content: app.find_text.clone(), style: named(Some(Color::White), None, BOLD) });
    r.push(span("  ", named(None, None, 0)));
    let n = app.find_matches.len();
    if n == 0 {
        r.push(span("No matches", named(Some(Color::Red), None, 0)));
    } else {
        let mut t = decimal_string(app.find_cursor as u64 + 1);
        t.append(" / ");
        let d = decimal_string(n as u64);
        t.append(d.as_str());
        r.push(Span { content: t, style: named(Some(Color::Green), None, 0) });
    }
    assert(spans_view(r@) =~= spec_find_bar(*app));
    r
}

/// The advanced-search overlay on the screen `area`: 70% of its width (at
/// least 40 columns) and 80% of its height (at least 10 rows), centred.
pub open spec fn spec_overlay_rect(area: PaneRect) -> PaneRect {
    let w0 = area.width * 70 / 100;
    let h0 = area.height * 80 / 100;
    let w = if w0 > 40 {
        w0
    } else {
        40
    };
    let h = if h0 > 10 {
        h0
    } else {
        10
    };
    let dx = if area.width > w {
        area.width - w
    } else {
        0
    };
    let dy = if area.height > h {
        area.height - h
    } else {
        0
    };
    PaneRect { x: (area.x + dx / 2) as u16, y: (area.y + dy / 2) as u16, width: w as u16, height: h as u16 }
}

/// Where the advanced-search overlay goes, as [`spec_overlay_rect`] says.
pub fn overlay_rect(area: PaneRect) -> (r: PaneRect)
    requires
        area.width * 70 <= u16::MAX,
        area.height * 80 <= u16::MAX,
        area.x + area.width <= u16::MAX,
        area.y + area.height <= u16::MAX,
    ensures
        r == spec_overlay_rect(area),
{
    let w0 = area.width * 70 / 100;
    let h0 = area.height * 80 / 100;
    let w: u16 = if w0 > 40 {
        w0
    } else {
        40
    };
    let h: u16 = if h0 > 10 {
        h0
    } else {
        10
    };
    let dx: u16 = if area.width > w {
        area.width - w
    } else {
        0
    };
    let dy: u16 = if area.height > h {
        area.height - h
    } else {
        0
    };
    PaneRect { x: area.x + dx / 2, y: area.y + dy / 2, width: w, height: h }
}

/// The rows of the filter tree under node `n`, whose row starts with
/// `indent`: the node's check box and label, bold at the top level, then
/// its children's rows, indented by two more spaces.
pub open spec fn node_lines(n: FilterNode, indent: Seq<char>, top: bool) -> Seq<(Seq<char>, Style)>
    decreases n, 0nat,
{
    let mark = if n.checked {
        "[x] "@
    } else {
        "[ ] "@
    };
    let style = if top {
        Style { fg: None, bg: None, add_modifier: BOLD }
    } else {
        Style { fg: None, bg: None, add_modifier: 0 }
    };
    seq![(indent + mark + n.label@, style)] + nodes_lines(n.children@, n.children@.len() as int, indent + "  "@, false)
}

/// The rows of the first `k` nodes of `ns`.
pub open spec fn nodes_lines(ns: Seq<FilterNode>, k: int, indent: Seq<char>, top: bool) -> Seq<(Seq<char>, Style)>
    decreases ns, 1nat, k,
{
    if k <= 0 || k > ns.len() {
        Seq::empty()
    } else {
        nodes_lines(ns, k - 1, indent, top) + node_lines(ns[k - 1], indent, top)
    }
}

fn push_node_lines(n: &FilterNode, indent: &String, top: bool, out: &mut Vec<Span>)
    ensures
        spans_view(final(out)@) == spans_view(old(out)@) + node_lines(*n, indent@, top),
    decreases *n, 0nat,
{
    let ghost start = spans_view(out@);
    let mut row = indent.clone();
    if n.checked {
        row.append("[x] ");
    } else {
        row.append("[ ] ");
    }
    row.append(n.label.as_str());
    let style = if top {
        named(None, None, BOLD)
    } else {
        named(None, None, 0)
    };
    out.push(Span { content: row, style });
    let ghost own = spans_view(out@);
    assert(own =~= start + seq![(indent@ + (if n.checked {
        "[x] "@
    } else {
        "[ ] "@
    }) + n.label@, style)]);
    let mut inner = indent.clone();
    inner.append("  ");
    let mut i: usize = 0;
    while i < n.children.len()
        invariant
            i <= n.children@.len(),
            inner@ == indent@ + "  "@,
            spans_view(out@) == own + nodes_lines(n.children@, i as int, inner@, false),
        decreases n.children@.len() - i,
    {
        assert(decreases_to!(*n => n.children@[i as int]));
        push_node_lines(&n.children[i], &inner, false, out);
        proof {
            assert(nodes_lines(n.children@, i + 1, inner@, false) == nodes_lines(n.children@, i as int, inner@, false)
                + node_lines(n.children@[i as int], inner@, false));
        }
        i = i + 1;
        assert(spans_view(out@) =~= own + nodes_lines(n.children@, i as int, inner@, false));
    }
    assert(spans_view(out@) =~= start + node_lines(*n, indent@, top));
}

/// The rows of the filter tree `nodes` shown in the advanced-search
/// overlay, depth first, as [`nodes_lines`] says.
pub fn filter_tree_lines(nodes: &[FilterNode]) -> (r: Vec<Span>)
    ensures
        spans_view(r@) == nodes_lines(nodes@, nodes@.len() as int, Seq::empty(), true),
{
    let mut out: Vec<Span> = Vec::new();
    let indent = String::new();
    let mut i: usize = 0;
    while i < nodes.len()
        invariant
            i <= nodes@.len(),
            indent@ == Seq::<char>::empty(),
            spans_view(out@) == nodes_lines(nodes@, i as int, Seq::empty(), true),
        decreases nodes@.len() - i,
    {
        push_node_lines(&nodes[i], &indent, true, &mut out);
        i = i + 1;
    }
    out
}

/// How a pane of a split is sized: a fixed length, or at least a length.
#[derive(Clone, Copy, Debug, PartialEq, Eq, Structural)]
pub enum SizeRule {
    Length(u16),
    Min(u16),
}

/// The panes into which ratatui's `Layout` splits `area`, top to bottom
/// (`vertical`) or left to right, by the size rules `rules`.
pub uninterp spec fn spec_split(area: PaneRect, vertical: bool, rules: Seq<SizeRule>) -> Seq<PaneRect>;

/// `Layout::default().direction(..).constraints(..).split(..)` of ratatui
/// on `Rect::new(area..)`: one pane per rule, as its source builds one
/// segment per constraint. The contract names the panes; the constraint
/// solver is not restated.
#[verifier::external_body]
fn split_area(area: PaneRect, vertical: bool, rules: &[SizeRule]) -> (r: Vec<PaneRect>)
    ensures
        r@ == spec_split(area, vertical, rules@),
        r@.len() == rules@.len(),
{
    let cs: Vec<Constraint> = rules.iter().map(|r| match r {
        SizeRule::Length(n) => Constraint::Length(*n),
        SizeRule::Min(n) => Constraint::Min(*n),
    }).collect();
    let dir = if vertical { Direction::Vertical } else { Direction::Horizontal };
    let rects = Layout::default().direction(dir).constraints(cs).split(Rect::new(area.x, area.y, area.width, area.height));
    rects.iter().map(|p| PaneRect { x: p.x, y: p.y, width: p.width, height: p.height }).collect()
}

/// Where the panes of the screen go.
#[derive(Clone, Copy, Debug, PartialEq, Eq)]
pub struct PaneLayout {
    pub search: PaneRect,
    pub results: PaneRect,
    pub content: PaneRect,
    pub findbar: Option<PaneRect>,
    pub status: PaneRect,
}

/// The rows of the screen: the search field (three rows, four with
/// spelling suggestions), the main panes (at least five rows), the find bar
/// (three rows, in find mode only) and the status bar (one row).
pub open spec fn row_rules(find: bool, suggestions: bool) -> Seq<SizeRule> {
    let search_h: u16 = if suggestions {
        4
    } else {
        3
    };
    if find {
        seq![SizeRule::Length(search_h), SizeRule::Min(5), SizeRule::Length(3), SizeRule::Length(1)]
    } else {
        seq![SizeRule::Length(search_h), SizeRule::Min(5), SizeRule::Length(1)]
    }
}

/// The width of the result list on a screen `width` columns wide: a third,
/// at least 20 and at most 50 columns.
pub open spec fn result_width(width: u16) -> u16 {
    let third = width / 3;
    if third < 20 {
        20
    } else if third > 50 {
        50
    } else {
        third
    }
}

/// The panes of the screen `area` for the state `app`.
pub open spec fn spec_compute_layout(area: PaneRect, app: App) -> PaneLayout {
    let find = app.mode == AppMode::FindInPage;
    let rows = spec_split(area, true, row_rules(find, app.spell_suggestions@.len() > 0));
    let cols = spec_split(rows[1], false, seq![SizeRule::Length(result_width(area.width)), SizeRule::Min(30)]);
    PaneLayout {
        search: rows[0],
        results: cols[0],
        content: cols[1],
        findbar: if find {
            Some(rows[2])
        } else {
            None
        },
        status: if find {
            rows[3]
        } else {
            rows[2]
        },
    }
}

/// The panes of the screen `area`, as [`spec_compute_layout`] says.
pub fn compute_layout(area: PaneRect, app: &App) -> (r: PaneLayout)
    ensures
        r == spec_compute_layout(area, *app),
{
    let find = app.mode == AppMode::FindInPage;
    let search_h: u16 = if app.spell_suggestions.len() > 0 {
        4
    } else {
        3
    };
    let mut rules: Vec<SizeRule> = Vec::new();
    rules.push(SizeRule::Length(search_h));
    rules.push(SizeRule::Min(5));
    if find {
        rules.push(SizeRule::Length(3));
    }
    rules.push(SizeRule::Length(1));
    assert(rules@ =~= row_rules(find, app.spell_suggestions@.len() > 0));
    let rows = split_area(area, true, rules.as_slice());
    let third = area.width / 3;
    let w: u16 = if third < 20 {
        20
    } else if third > 50 {
        50
    } else {
        third
    };
    let mut col_rules: Vec<SizeRule> = Vec::new();
    col_rules.push(SizeRule::Length(w));
    col_rules.push(SizeRule::Min(30));
    assert(col_rules@ =~= seq![SizeRule::Length(result_width(area.width)), SizeRule::Min(30)]);
    let cols = split_area(rows[1], false, col_rules.as_slice());
    PaneLayout {
        search: rows[0],
        results: cols[0],
        content: cols[1],
        findbar: if find {
            Some(rows[2])
        } else {
            None
        },
        status: if find {
            rows[3]
        } else {
            rows[2]
        },
    }
}

} // verus!
