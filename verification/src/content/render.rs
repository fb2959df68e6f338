//! Laying a page out as lines of styled spans for the terminal: a fixed
//! column for block prefixes, block indentation, and a span per inline
//! element.

use vstd::prelude::*;

use unicode_width::UnicodeWidthStr;

use crate::content::page::{Block, Inline, InlineView, inlines_view};
use crate::content::style::{
    Style, fg_bg_style, fg_style, BOLD, DIM, UNDERLINED, style_audio, style_badge_border, style_badge_inner,
    style_headword, style_ref, style_section_heading, style_signpost,
};
use crate::content::transform::{BlockView, block_view, page_view, st_headword, st_ref};
use crate::text::{chars_of, push_char, spec_str_uppercase, spec_trim, str_uppercase, string_from_chars, trim_chars};

verus! {

/// The displayed width in terminal columns that unicode-width gives `s`.
pub uninterp spec fn spec_str_width(s: Seq<char>) -> usize;

/// `UnicodeWidthStr::width` of unicode-width: the displayed width of `s`
/// in columns. The contract names the result; the width tables are not
/// restated.
#[verifier::external_body]
fn str_width(s: &str) -> (r: usize)
    ensures
        r == spec_str_width(s@),
{
    UnicodeWidthStr::width(s)
}

/// A piece of text in one style.
#[derive(Debug, Clone)]
pub struct Span {
    pub content: String,
    pub style: Style,
}

/// A line of spans.
#[derive(Debug, Clone)]
pub struct Line {
    pub spans: Vec<Span>,
}

/// Lines of styled text.
#[derive(Debug, Clone)]
pub struct Text {
    pub lines: Vec<Line>,
}

/// The plain value of a span: its text and style.
pub open spec fn span_view(sp: Span) -> (Seq<char>, Style) {
    (sp.content@, sp.style)
}

/// The plain values of lines of spans.
pub open spec fn lines_view(v: Seq<Line>) -> Seq<Seq<(Seq<char>, Style)>> {
    v.map_values(|l: Line| spans_view(l.spans@))
}

/// Unstyled text.
pub open spec fn raw(s: Seq<char>) -> (Seq<char>, Style) {
    (s, Style { fg: None, bg: None, add_modifier: 0 })
}

/// `n` spaces.
pub open spec fn spaces(n: int) -> Seq<char> {
    Seq::new(n as nat, |i: int| ' ')
}

/// `a + b`, wrapping around past `usize::MAX`.
pub open spec fn wrap_add(a: usize, b: usize) -> usize {
    if a + b > usize::MAX {
        (a + b - usize::MAX - 1) as usize
    } else {
        (a + b) as usize
    }
}

/// The prefix that starts block `b`, if any.
pub open spec fn first_prefix(b: BlockView) -> Option<(Seq<char>, Style)> {
    if b.inlines.len() > 0 && b.inlines[0] is Prefix {
        Some((b.inlines[0]->Prefix_0, b.inlines[0]->Prefix_1))
    } else {
        None
    }
}

/// The widest prefix of the page, or 0.
pub open spec fn prefix_width(page: Seq<BlockView>) -> usize
    decreases page.len(),
{
    if page.len() == 0 {
        0
    } else {
        let m = prefix_width(page.drop_last());
        match first_prefix(page.last()) {
            Some(p) => if spec_str_width(p.0) > m {
                spec_str_width(p.0)
            } else {
                m
            },
            None => m,
        }
    }
}

/// The width of the prefix column: the widest prefix, at least 1.
pub open spec fn col_width(page: Seq<BlockView>) -> usize {
    if prefix_width(page) > 1 {
        prefix_width(page)
    } else {
        1
    }
}

/// The indentation span of block `b`, if it is indented.
pub open spec fn indent_spans(b: BlockView) -> Seq<(Seq<char>, Style)> {
    if b.indent > 0 {
        seq![raw(spaces(b.indent * 2))]
    } else {
        Seq::empty()
    }
}

/// The start of the first line of block `b`: a margin of two, the prefix
/// right-aligned in a column of width `w` (or blank), a space, and the
/// indentation.
pub open spec fn lead_spans(b: BlockView, w: usize) -> Seq<(Seq<char>, Style)> {
    let cell = match first_prefix(b) {
        Some(p) => (if w > spec_str_width(p.0) {
            seq![raw(spaces(w - spec_str_width(p.0)))]
        } else {
            Seq::empty()
        }) + seq![p, raw(" "@)],
        None => seq![raw(spaces(wrap_add(w, 1) as int))],
    };
    seq![raw(spaces(2))] + cell + indent_spans(b)
}

/// The start of a line after a line break in block `b`: blank up to the
/// text column.
pub open spec fn restart_spans(b: BlockView, w: usize) -> Seq<(Seq<char>, Style)> {
    seq![raw(spaces(wrap_add(wrap_add(2, w), 1) as int))] + indent_spans(b)
}

/// The texts and headwords of `v`, joined.
pub open spec fn heading_text(v: Seq<InlineView>) -> Seq<char>
    decreases v.len(),
{
    if v.len() == 0 {
        Seq::empty()
    } else {
        heading_text(v.drop_last()) + match v.last() {
            InlineView::Text(t, _) => t,
            InlineView::Headword(t) => t,
            _ => Seq::empty(),
        }
    }
}

/// The title shown on an audio button.
pub open spec fn audio_label(title: Seq<char>) -> Seq<char> {
    if title == "British"@ {
        "\u{1F1EC}\u{1F1E7}"@
    } else if title == "American"@ {
        "\u{1F1FA}\u{1F1F8}"@
    } else {
        "\u{25B6}"@
    }
}

/// The spans of an inline element other than a line break.
pub open spec fn inline_spans(i: InlineView) -> Seq<(Seq<char>, Style)> {
    match i {
        InlineView::Text(t, st) => seq![(t, st)],
        InlineView::Headword(t) => seq![(t, st_headword())],
        InlineView::AudioButton(_, title) => seq![(" "@ + audio_label(title) + " "@, fg_style(128, 255, 234, 0))],
        InlineView::Link(t, _) => seq![(t, st_ref())],
        InlineView::Badge(t) => if spec_trim(t).len() == 0 {
            Seq::empty()
        } else {
            seq![
                raw(" "@),
                ("["@, fg_style(180, 180, 190, DIM)),
                (spec_trim(t), fg_bg_style(248, 248, 242, 121, 112, 169, BOLD)),
                ("]"@, fg_style(180, 180, 190, DIM)),
                raw(" "@),
            ]
        },
        InlineView::Signpost(t) => seq![
            (" \u{25A0} "@ + spec_str_uppercase(spec_trim(t)) + " \u{25A0} "@, fg_bg_style(248, 248, 242, 63, 115, 115, BOLD)),
        ],
        _ => Seq::empty(),
    }
}

/// The finished lines and the line being built after laying out `v`, from
/// the line `start`; a line break starts a new line with `restart`.
pub open spec fn layout_run(
    v: Seq<InlineView>,
    start: Seq<(Seq<char>, Style)>,
    restart: Seq<(Seq<char>, Style)>,
) -> (Seq<Seq<(Seq<char>, Style)>>, Seq<(Seq<char>, Style)>)
    decreases v.len(),
{
    if v.len() == 0 {
        (Seq::empty(), start)
    } else {
        let (ls, cur) = layout_run(v.drop_last(), start, restart);
        match v.last() {
            InlineView::LineBreak => (ls.push(cur), restart),
            other => (ls, cur + inline_spans(other)),
        }
    }
}

/// The lines of block `b` with a prefix column of width `w`. A heading
/// block is one line of its upper-cased text, or none when it has no text.
pub open spec fn block_lines(b: BlockView, w: usize) -> Seq<Seq<(Seq<char>, Style)>> {
    if b.is_heading {
        let h = spec_trim(heading_text(b.inlines));
        if h.len() > 0 {
            seq![lead_spans(b, w).push((" "@ + spec_str_uppercase(h) + " "@, fg_bg_style(248, 248, 242, 121, 112, 169, BOLD)))]
        } else {
            Seq::empty()
        }
    } else {
        let body = if first_prefix(b) is Some {
            b.inlines.drop_first()
        } else {
            b.inlines
        };
        let (ls, cur) = layout_run(body, lead_spans(b, w), restart_spans(b, w));
        if cur.len() > 0 {
            ls.push(cur)
        } else {
            ls
        }
    }
}

/// The lines of the blocks `page`, with a prefix column of width `w`.
pub open spec fn blocks_lines(page: Seq<BlockView>, w: usize) -> Seq<Seq<(Seq<char>, Style)>>
    decreases page.len(),
{
    if page.len() == 0 {
        Seq::empty()
    } else {
        blocks_lines(page.drop_last(), w) + block_lines(page.last(), w)
    }
}

/// The lines of a page.
pub open spec fn page_lines(page: Seq<BlockView>) -> Seq<Seq<(Seq<char>, Style)>> {
    blocks_lines(page, col_width(page))
}

/// The plain values of a line of spans.
pub open spec fn spans_view(v: Seq<Span>) -> Seq<(Seq<char>, Style)> {
    v.map_values(|sp: Span| span_view(sp))
}

/// `n` spaces.
fn spaces_string(n: usize) -> (r: String)
    ensures
        r@ == spaces(n as int),
{
    let mut r = String::new();
    let mut i: usize = 0;
    while i < n
        invariant
            i <= n,
            r@ =~= spaces(i as int),
        decreases n - i,
    {
        push_char(&mut r, ' ');
        i = i + 1;
    }
    r
}

/// `a + b`, wrapping around past `usize::MAX`.
fn add_wrapping(a: usize, b: usize) -> (r: usize)
    ensures
        r == wrap_add(a, b),
{
    if a > usize::MAX - b {
        b - (usize::MAX - a) - 1
    } else {
        a + b
    }
}

/// An unstyled span.
fn raw_span(s: String) -> (r: Span)
    ensures
        span_view(r) == raw(s@),
{
    Span { content: s, style: Style::plain() }
}

/// The widest prefix of the page, or 0.
fn page_prefix_width(page: &[Block]) -> (r: usize)
    ensures
        r == prefix_width(page_view(page@)),
{
    let ghost pv = page_view(page@);
    let mut m: usize = 0;
    let mut i: usize = 0;
    while i < page.len()
        invariant
            i <= page@.len(),
            pv == page_view(page@),
            m == prefix_width(pv.take(i as int)),
        decreases page@.len() - i,
    {
        assert(pv.take(i + 1).drop_last() =~= pv.take(i as int));
        assert(pv.take(i + 1).last() == block_view(page@[i as int]));
        let b = &page[i];
        if b.inlines.len() > 0 {
            match &b.inlines[0] {
                Inline::Prefix(t, _) => {
                    let w = str_width(t.as_str());
                    if w > m {
                        m = w;
                    }
                },
                _ => {},
            }
        }
        i = i + 1;
    }
    assert(pv.take(pv.len() as int) =~= pv);
    m
}

/// The indentation span of `b`, if it is indented, added to `v`.
fn push_indent(v: &mut Vec<Span>, b: &Block)
    ensures
        spans_view(final(v)@) == spans_view(old(v)@) + indent_spans(block_view(*b)),
{
    let ghost v0 = spans_view(v@);
    if b.indent > 0 {
        let n: usize = (b.indent as usize) * 2;
        v.push(raw_span(spaces_string(n)));
        assert(spans_view(v@) =~= v0 + indent_spans(block_view(*b)));
    } else {
        assert(spans_view(v@) =~= v0 + indent_spans(block_view(*b)));
    }
}

/// The start of the first line of `b` with a prefix column of width `w`.
fn lead_line(b: &Block, w: usize) -> (r: Vec<Span>)
    ensures
        spans_view(r@) == lead_spans(block_view(*b), w),
{
    let ghost bv = block_view(*b);
    let mut v: Vec<Span> = Vec::new();
    v.push(raw_span(spaces_string(2)));
    let mut done = false;
    if b.inlines.len() > 0 {
        match &b.inlines[0] {
            Inline::Prefix(t, st) => {
                let cw = str_width(t.as_str());
                if w > cw {
                    v.push(raw_span(spaces_string(w - cw)));
                }
                v.push(Span { content: t.clone(), style: *st });
                v.push(raw_span(String::from_str(" ")));
                done = true;
            },
            _ => {},
        }
    }
    if !done {
        v.push(raw_span(spaces_string(add_wrapping(w, 1))));
    }
    proof {
        let cell = match first_prefix(bv) {
            Some(p) => (if w > spec_str_width(p.0) {
                seq![raw(spaces(w - spec_str_width(p.0)))]
            } else {
                Seq::empty()
            }) + seq![p, raw(" "@)],
            None => seq![raw(spaces(wrap_add(w, 1) as int))],
        };
        assert(spans_view(v@) =~= seq![raw(spaces(2))] + cell);
    }
    push_indent(&mut v, b);
    v
}

/// The start of a line after a line break in `b`.
fn restart_line(b: &Block, w: usize) -> (r: Vec<Span>)
    ensures
        spans_view(r@) == restart_spans(block_view(*b), w),
{
    let mut v: Vec<Span> = Vec::new();
    let n = add_wrapping(add_wrapping(2, w), 1);
    v.push(raw_span(spaces_string(n)));
    assert(spans_view(v@) =~= seq![raw(spaces(n as int))]);
    push_indent(&mut v, b);
    v
}

/// `a`, then `b`, then `c`.
fn concat3(a: &str, b: &str, c: &str) -> (r: String)
    ensures
        r@ == a@ + b@ + c@,
{
    let mut r = String::from_str(a);
    r.append(b);
    r.append(c);
    r
}

/// Appends the spans of `i`, which is no line break.
fn push_inline_spans(v: &mut Vec<Span>, i: &Inline)
    requires
        !(i@ is LineBreak),
    ensures
        spans_view(final(v)@) == spans_view(old(v)@) + inline_spans(i@),
{
    let ghost v0 = spans_view(v@);
    match i {
        Inline::Text(t, st) => {
            v.push(Span { content: t.clone(), style: *st });
        },
        Inline::Headword(t) => {
            v.push(Span { content: t.clone(), style: style_headword() });
        },
        Inline::AudioButton { title, .. } => {
            let label = if crate::history::str_equal(title.as_str(), "British") {
                "\u{1F1EC}\u{1F1E7}"
            } else if crate::history::str_equal(title.as_str(), "American") {
                "\u{1F1FA}\u{1F1F8}"
            } else {
                "\u{25B6}"
            };
            v.push(Span { content: concat3(" ", label, " "), style: style_audio() });
        },
        Inline::Link { text, .. } => {
            v.push(Span { content: text.clone(), style: style_ref() });
        },
        Inline::Badge { text } => {
            let tc = chars_of(text.as_str());
            let t = trim_chars(tc.as_slice());
            if t.len() > 0 {
                let ts = string_from_chars(t.as_slice());
                v.push(raw_span(String::from_str(" ")));
                v.push(Span { content: String::from_str("["), style: style_badge_border() });
                v.push(Span { content: ts, style: style_badge_inner() });
                v.push(Span { content: String::from_str("]"), style: style_badge_border() });
                v.push(raw_span(String::from_str(" ")));
            }
        },
        Inline::Signpost { text } => {
            let tc = chars_of(text.as_str());
            let t = trim_chars(tc.as_slice());
            let ts = string_from_chars(t.as_slice());
            let up = str_uppercase(ts.as_str());
            v.push(Span { content: concat3(" \u{25A0} ", up.as_str(), " \u{25A0} "), style: style_signpost() });
        },
        _ => {},
    }
    assert(spans_view(v@) =~= v0 + inline_spans(i@));
}

/// The texts and headwords of `v`, joined.
fn block_heading_text(v: &Vec<Inline>) -> (r: String)
    ensures
        r@ == heading_text(inlines_view(v@)),
{
    let ghost iv = inlines_view(v@);
    let mut r = String::new();
    let mut i: usize = 0;
    while i < v.len()
        invariant
            i <= v@.len(),
            iv == inlines_view(v@),
            r@ == heading_text(iv.take(i as int)),
        decreases v@.len() - i,
    {
        assert(iv.take(i + 1).drop_last() =~= iv.take(i as int));
        match &v[i] {
            Inline::Text(t, _) => r.append(t.as_str()),
            Inline::Headword(t) => r.append(t.as_str()),
            _ => {
                assert(r@ + Seq::<char>::empty() =~= r@);
            },
        }
        i = i + 1;
    }
    assert(iv.take(iv.len() as int) =~= iv);
    r
}

/// Appends the lines of `b`, with a prefix column of width `w`, to `lines`.
fn push_block_lines(lines: &mut Vec<Line>, b: &Block, w: usize)
    ensures
        lines_view(final(lines)@) == lines_view(old(lines)@) + block_lines(block_view(*b), w),
{
    let ghost l0 = lines_view(lines@);
    let ghost bv = block_view(*b);
    if b.is_heading {
        let ht = block_heading_text(&b.inlines);
        let hc = chars_of(ht.as_str());
        let h = trim_chars(hc.as_slice());
        if h.len() > 0 {
            let hs = string_from_chars(h.as_slice());
            let up = str_uppercase(hs.as_str());
            let mut line = lead_line(b, w);
            let ghost lv = spans_view(line@);
            line.push(Span { content: concat3(" ", up.as_str(), " "), style: style_section_heading() });
            assert(spans_view(line@) =~= lv.push((" "@ + spec_str_uppercase(h@) + " "@, fg_bg_style(248, 248, 242, 121, 112, 169, BOLD))));
            lines.push(Line { spans: line });
            assert(lines_view(lines@) =~= l0 + block_lines(bv, w));
        } else {
            assert(lines_view(lines@) =~= l0 + block_lines(bv, w));
        }
        return;
    }
    let mut start: usize = 0;
    if b.inlines.len() > 0 {
        match &b.inlines[0] {
            Inline::Prefix(..) => {
                start = 1;
            },
            _ => {},
        }
    }
    let ghost body = bv.inlines.subrange(start as int, bv.inlines.len() as int);
    assert(body =~= (if first_prefix(bv) is Some {
        bv.inlines.drop_first()
    } else {
        bv.inlines
    }));
    let ghost lead = lead_spans(bv, w);
    let ghost re = restart_spans(bv, w);
    let mut cur = lead_line(b, w);
    let n = b.inlines.len();
    let mut k = start;
    assert(body.take(0) =~= Seq::<InlineView>::empty());
    while k < n
        invariant
            start <= k <= n,
            n == b.inlines@.len(),
            bv == block_view(*b),
            body == bv.inlines.subrange(start as int, n as int),
            lead == lead_spans(bv, w),
            re == restart_spans(bv, w),
            lines_view(lines@) == l0 + layout_run(body.take(k - start), lead, re).0,
            spans_view(cur@) == layout_run(body.take(k - start), lead, re).1,
        decreases n - k,
    {
        let ghost pre = body.take(k - start);
        assert(body.take(k + 1 - start).drop_last() =~= pre);
        assert(body.take(k + 1 - start).last() == b.inlines@[k as int]@);
        let ghost lp = lines_view(lines@);
        match &b.inlines[k] {
            Inline::LineBreak => {
                let mut done = restart_line(b, w);
                std::mem::swap(&mut cur, &mut done);
                lines.push(Line { spans: done });
                assert(lines_view(lines@) =~= lp.push(spans_view(done@)));
            },
            other => {
                push_inline_spans(&mut cur, other);
            },
        }
        k = k + 1;
    }
    assert(body.take(n - start) =~= body);
    if cur.len() > 0 {
        let ghost lp = lines_view(lines@);
        lines.push(Line { spans: cur });
        assert(lines_view(lines@) =~= lp.push(spans_view(cur@)));
    }
}

/// The page laid out as lines of styled spans: a prefix column as wide as
/// the widest prefix (at least one cell) after a margin of two, then each
/// block's indentation and inline elements; a line break continues under
/// the text, and a heading block is one line of its upper-cased text.
pub fn to_ratatui_text(page: &[Block]) -> (r: Text)
    ensures
        lines_view(r.lines@) == page_lines(page_view(page@)),
{
    let ghost pv = page_view(page@);
    let m = page_prefix_width(page);
    let w = if m > 1 {
        m
    } else {
        1
    };
    let mut lines: Vec<Line> = Vec::new();
    let mut i: usize = 0;
    assert(lines_view(lines@) =~= Seq::<Seq<(Seq<char>, Style)>>::empty());
    while i < page.len()
        invariant
            i <= page@.len(),
            pv == page_view(page@),
            lines_view(lines@) == blocks_lines(pv.take(i as int), w),
        decreases page@.len() - i,
    {
        assert(pv.take(i + 1).drop_last() =~= pv.take(i as int));
        assert(pv.take(i + 1).last() == block_view(page@[i as int]));
        push_block_lines(&mut lines, &page[i], w);
        i = i + 1;
    }
    assert(pv.take(pv.len() as int) =~= pv);
    Text { lines }
}

} // verus!
