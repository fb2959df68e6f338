//! The rich-text model of a rendered page: blocks of inline elements.

use vstd::prelude::*;

use crate::content::style::Style;
use crate::text::{chars_of, char_is_alphanumeric, spec_is_alphanumeric, spec_trim, trim_chars, string_from_chars};

verus! {

/// An inline element within a `Block`.
#[derive(Debug, Clone)]
pub enum Inline {
    /// Styled plain text.
    Text(String, Style),
    /// Headword text, rendered specially and used as the page title.
    Headword(String),
    /// A small prefix for a block (sense number, bullet), rendered in a
    /// fixed-width column to the left of the block text.
    Prefix(String, Style),
    /// An audio playback button.
    AudioButton { path: String, title: String },
    /// An image placeholder.
    Image { filename: String },
    /// A cross-reference.
    Link { text: String, target: String },
    /// A line break within a block.
    LineBreak,
    /// A frequency/corpus badge (S1, W2, AC), rendered as a pill.
    Badge { text: String },
    /// A signpost label, rendered boxed.
    Signpost { text: String },
}

/// The plain value of an inline element.
pub enum InlineView {
    Text(Seq<char>, Style),
    Headword(Seq<char>),
    Prefix(Seq<char>, Style),
    AudioButton(Seq<char>, Seq<char>),
    Image(Seq<char>),
    Link(Seq<char>, Seq<char>),
    LineBreak,
    Badge(Seq<char>),
    Signpost(Seq<char>),
}

impl View for Inline {
    type V = InlineView;

    open spec fn view(&self) -> InlineView {
        match self {
            Inline::Text(s, st) => InlineView::Text(s@, *st),
            Inline::Headword(s) => InlineView::Headword(s@),
            Inline::Prefix(s, st) => InlineView::Prefix(s@, *st),
            Inline::AudioButton { path, title } => InlineView::AudioButton(path@, title@),
            Inline::Image { filename } => InlineView::Image(filename@),
            Inline::Link { text, target } => InlineView::Link(text@, target@),
            Inline::LineBreak => InlineView::LineBreak,
            Inline::Badge { text } => InlineView::Badge(text@),
            Inline::Signpost { text } => InlineView::Signpost(text@),
        }
    }
}

/// The views of a list of inline elements.
pub open spec fn inlines_view(v: Seq<Inline>) -> Seq<InlineView> {
    v.map_values(|i: Inline| i@)
}

/// A block of content (a paragraph-like unit of a page).
#[derive(Debug, Clone)]
pub struct Block {
    /// Indentation level (each level = 2 spaces).
    pub indent: u8,
    /// Inlines that make up this block's content.
    pub inlines: Vec<Inline>,
    /// Whether this block comes from a collocations section.
    pub is_collo: bool,
    /// Whether this block is a section box heading.
    pub is_heading: bool,
}

impl Default for Block {
    fn default() -> (r: Block)
        ensures
            r.indent == 0,
            r.inlines@.len() == 0,
            !r.is_collo,
            !r.is_heading,
    {
        Block::new(0)
    }
}

/// `a` followed by `b`, with a space between them when `a` ends and `b`
/// starts with an alphanumeric character.
pub open spec fn joined_words(a: Seq<char>, b: Seq<char>) -> Seq<char> {
    if a.len() > 0 && spec_is_alphanumeric(a.last()) && b.len() > 0 && spec_is_alphanumeric(b[0]) {
        a + " "@ + b
    } else {
        a + b
    }
}

/// The inline elements after appending the text `t` in style `st`: merged
/// into a last text element of the same style, else added.
pub open spec fn after_push_text(v: Seq<InlineView>, t: Seq<char>, st: Style) -> Seq<InlineView> {
    if t.len() == 0 {
        v
    } else if v.len() > 0 && v.last() is Text && v.last()->Text_1 == st {
        v.drop_last().push(InlineView::Text(joined_words(v.last()->Text_0, t), st))
    } else {
        v.push(InlineView::Text(t, st))
    }
}

/// The inline elements after appending the headword text `t`: merged into
/// a last headword element, else added.
pub open spec fn after_push_headword(v: Seq<InlineView>, t: Seq<char>) -> Seq<InlineView> {
    if t.len() == 0 {
        v
    } else if v.len() > 0 && v.last() is Headword {
        v.drop_last().push(InlineView::Headword(joined_words(v.last()->Headword_0, t)))
    } else {
        v.push(InlineView::Headword(t))
    }
}

/// The inline elements after appending the signpost text `t`: appended to
/// a last signpost element, else added.
pub open spec fn after_push_signpost(v: Seq<InlineView>, t: Seq<char>) -> Seq<InlineView> {
    if t.len() == 0 {
        v
    } else if v.len() > 0 && v.last() is Signpost {
        v.drop_last().push(InlineView::Signpost(v.last()->Signpost_0 + t))
    } else {
        v.push(InlineView::Signpost(t))
    }
}

/// The inline elements after appending the badge text `t`, trimmed; blank
/// text adds nothing.
pub open spec fn after_push_badge(v: Seq<InlineView>, t: Seq<char>) -> Seq<InlineView> {
    if spec_trim(t).len() == 0 {
        v
    } else {
        v.push(InlineView::Badge(spec_trim(t)))
    }
}

/// Whether the text `a` followed by `b` needs a separating space.
fn needs_space(a: &str, b: &str) -> (r: bool)
    ensures
        r == (a@.len() > 0 && spec_is_alphanumeric(a@.last()) && b@.len() > 0
            && spec_is_alphanumeric(b@[0])),
{
    let ac = chars_of(a);
    let bc = chars_of(b);
    ac.len() > 0 && char_is_alphanumeric(ac[ac.len() - 1]) && bc.len() > 0 && char_is_alphanumeric(bc[0])
}

/// `a` followed by `b`, with a space between two alphanumeric characters.
fn join_words(a: String, b: &str) -> (r: String)
    ensures
        r@ == joined_words(a@, b@),
{
    let sp = needs_space(a.as_str(), b);
    let mut r = a;
    if sp {
        r.append(" ");
    }
    r.append(b);
    r
}

impl Block {
    /// An empty block at indentation `indent`.
    pub fn new(indent: u8) -> (r: Block)
        ensures
            r.indent == indent,
            r.inlines@.len() == 0,
            !r.is_collo,
            !r.is_heading,
    {
        Block { indent, inlines: Vec::new(), is_collo: false, is_heading: false }
    }

    /// Appends a frequency badge with the trimmed `text`; blank text adds
    /// nothing.
    pub fn push_badge(&mut self, text: &str)
        ensures
            inlines_view(final(self).inlines@) == after_push_badge(inlines_view(old(self).inlines@), text@),
            final(self).indent == old(self).indent,
            final(self).is_collo == old(self).is_collo,
            final(self).is_heading == old(self).is_heading,
    {
        let tc = chars_of(text);
        let t = trim_chars(tc.as_slice());
        if t.len() == 0 {
            return;
        }
        let ghost before = self.inlines@;
        self.inlines.push(Inline::Badge { text: string_from_chars(t.as_slice()) });
        assert(inlines_view(self.inlines@) =~= inlines_view(before).push(InlineView::Badge(spec_trim(text@))));
    }

    /// Appends signpost text, merged into a signpost that ends the block.
    pub fn push_signpost(&mut self, text: &str)
        ensures
            inlines_view(final(self).inlines@) == after_push_signpost(inlines_view(old(self).inlines@), text@),
            final(self).indent == old(self).indent,
            final(self).is_collo == old(self).is_collo,
            final(self).is_heading == old(self).is_heading,
    {
        if text.is_empty() {
            return;
        }
        let ghost before = self.inlines@;
        match self.inlines.pop() {
            Some(Inline::Signpost { text: existing }) => {
                let mut s = existing;
                s.append(text);
                self.inlines.push(Inline::Signpost { text: s });
                assert(inlines_view(self.inlines@) =~= inlines_view(before).drop_last().push(
                    InlineView::Signpost(before.last()@->Signpost_0 + text@),
                ));
            },
            Some(other) => {
                self.inlines.push(other);
                self.inlines.push(Inline::Signpost { text: String::from_str(text) });
                assert(self.inlines@.drop_last() =~= before);
                assert(inlines_view(self.inlines@) =~= inlines_view(before).push(InlineView::Signpost(text@)));
            },
            None => {
                self.inlines.push(Inline::Signpost { text: String::from_str(text) });
                assert(inlines_view(self.inlines@) =~= inlines_view(before).push(InlineView::Signpost(text@)));
            },
        }
    }

    /// Appends text in `style`, merged into a text element of the same style
    /// that ends the block (with a space between two alphanumeric
    /// characters).
    pub fn push_text(&mut self, text: &str, style: Style)
        ensures
            inlines_view(final(self).inlines@) == after_push_text(inlines_view(old(self).inlines@), text@, style),
            final(self).indent == old(self).indent,
            final(self).is_collo == old(self).is_collo,
            final(self).is_heading == old(self).is_heading,
    {
        if text.is_empty() {
            return;
        }
        let ghost before = self.inlines@;
        match self.inlines.pop() {
            Some(Inline::Text(last_text, last_style)) => {
                if last_style == style {
                    let s = join_words(last_text, text);
                    self.inlines.push(Inline::Text(s, style));
                    assert(inlines_view(self.inlines@) =~= inlines_view(before).drop_last().push(
                        InlineView::Text(joined_words(before.last()@->Text_0, text@), style),
                    ));
                } else {
                    self.inlines.push(Inline::Text(last_text, last_style));
                    self.inlines.push(Inline::Text(String::from_str(text), style));
                    assert(self.inlines@.drop_last() =~= before);
                    assert(inlines_view(self.inlines@) =~= inlines_view(before).push(InlineView::Text(text@, style)));
                }
            },
            Some(other) => {
                self.inlines.push(other);
                self.inlines.push(Inline::Text(String::from_str(text), style));
                assert(self.inlines@.drop_last() =~= before);
                assert(inlines_view(self.inlines@) =~= inlines_view(before).push(InlineView::Text(text@, style)));
            },
            None => {
                self.inlines.push(Inline::Text(String::from_str(text), style));
                assert(inlines_view(self.inlines@) =~= inlines_view(before).push(InlineView::Text(text@, style)));
            },
        }
    }

    /// Appends headword text, merged into a headword that ends the block
    /// (with a space between two alphanumeric characters).
    pub fn push_headword(&mut self, text: &str)
        ensures
            inlines_view(final(self).inlines@) == after_push_headword(inlines_view(old(self).inlines@), text@),
            final(self).indent == old(self).indent,
            final(self).is_collo == old(self).is_collo,
            final(self).is_heading == old(self).is_heading,
    {
        if text.is_empty() {
            return;
        }
        let ghost before = self.inlines@;
        match self.inlines.pop() {
            Some(Inline::Headword(last_text)) => {
                let s = join_words(last_text, text);
                self.inlines.push(Inline::Headword(s));
                assert(inlines_view(self.inlines@) =~= inlines_view(before).drop_last().push(
                    InlineView::Headword(joined_words(before.last()@->Headword_0, text@)),
                ));
            },
            Some(other) => {
                self.inlines.push(other);
                self.inlines.push(Inline::Headword(String::from_str(text)));
                assert(self.inlines@.drop_last() =~= before);
                assert(inlines_view(self.inlines@) =~= inlines_view(before).push(InlineView::Headword(text@)));
            },
            None => {
                self.inlines.push(Inline::Headword(String::from_str(text)));
                assert(inlines_view(self.inlines@) =~= inlines_view(before).push(InlineView::Headword(text@)));
            },
        }
    }
}

/// A fully rendered page.
pub type ContentPage = Vec<Block>;

} // verus!
