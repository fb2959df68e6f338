//! Text styles of rendered content: colours and modifiers, as plain values.

use vstd::prelude::*;

verus! {

/// A terminal colour: one of the named colours used, or 24-bit RGB.
#[derive(Debug, Clone, Copy, PartialEq, Eq, Structural)]
pub enum Color {
    Black,
    Red,
    Green,
    Yellow,
    Blue,
    Magenta,
    Cyan,
    White,
    DarkGray,
    Rgb(u8, u8, u8),
}

/// Bold text.
pub const BOLD: u16 = 0x1;

/// Dimmed text.
pub const DIM: u16 = 0x2;

/// Italic text.
pub const ITALIC: u16 = 0x4;

/// Underlined text.
pub const UNDERLINED: u16 = 0x8;

/// Foreground and background colours (when set) and the set of modifiers
/// added, as bits (`BOLD`, `DIM`, `ITALIC`, `UNDERLINED`).
#[derive(Debug, Clone, Copy, PartialEq, Eq, Structural)]
pub struct Style {
    pub fg: Option<Color>,
    pub bg: Option<Color>,
    pub add_modifier: u16,
}

impl Style {
    /// No colour set and no modifier.
    pub fn plain() -> (r: Style)
        ensures
            r.fg is None,
            r.bg is None,
            r.add_modifier == 0,
    {
        Style { fg: None, bg: None, add_modifier: 0 }
    }

    /// This style with foreground `c`.
    pub fn fg(self, c: Color) -> (r: Style)
        ensures
            r == (Style { fg: Some(c), ..self }),
    {
        Style { fg: Some(c), ..self }
    }

    /// This style with background `c`.
    pub fn bg(self, c: Color) -> (r: Style)
        ensures
            r == (Style { bg: Some(c), ..self }),
    {
        Style { bg: Some(c), ..self }
    }

    /// This style with the modifier bits `m` added.
    pub fn add_modifier(self, m: u16) -> (r: Style)
        ensures
            r == (Style { add_modifier: self.add_modifier | m, ..self }),
    {
        Style { add_modifier: self.add_modifier | m, ..self }
    }
}

impl Default for Style {
    fn default() -> (r: Style)
        ensures
            r == (Style { fg: None, bg: None, add_modifier: 0 }),
    {
        Style { fg: None, bg: None, add_modifier: 0 }
    }
}

/// The style with foreground `(r, g, b)` and modifiers `m`.
pub open spec fn fg_style(r: u8, g: u8, b: u8, m: u16) -> Style {
    Style { fg: Some(Color::Rgb(r, g, b)), bg: None, add_modifier: m }
}

/// The style with foreground `(r, g, b)`, background `(br, bgr, bb)` and
/// modifiers `m`.
pub open spec fn fg_bg_style(r: u8, g: u8, b: u8, br: u8, bgr: u8, bb: u8, m: u16) -> Style {
    Style { fg: Some(Color::Rgb(r, g, b)), bg: Some(Color::Rgb(br, bgr, bb)), add_modifier: m }
}

/// Ordinary text (white).
pub fn style_default() -> (s: Style)
    ensures
        s == fg_style(248, 248, 242, 0),
{
    Style { fg: Some(Color::Rgb(248, 248, 242)), bg: None, add_modifier: 0 }
}

/// Headwords (bright cyan, bold).
pub fn style_headword() -> (s: Style)
    ensures
        s == fg_style(153, 255, 238, BOLD),
{
    Style { fg: Some(Color::Rgb(153, 255, 238)), bg: None, add_modifier: BOLD }
}

/// Parts of speech (yellow).
pub fn style_pos() -> (s: Style)
    ensures
        s == fg_style(255, 255, 128, 0),
{
    Style { fg: Some(Color::Rgb(255, 255, 128)), bg: None, add_modifier: 0 }
}

/// Definitions (white).
pub fn style_def() -> (s: Style)
    ensures
        s == fg_style(248, 248, 242, 0),
{
    Style { fg: Some(Color::Rgb(248, 248, 242)), bg: None, add_modifier: 0 }
}

/// Examples (green, italic).
pub fn style_example() -> (s: Style)
    ensures
        s == fg_style(138, 255, 128, ITALIC),
{
    Style { fg: Some(Color::Rgb(138, 255, 128)), bg: None, add_modifier: ITALIC }
}

/// Cross-references (cyan, underlined).
pub fn style_ref() -> (s: Style)
    ensures
        s == fg_style(128, 255, 234, UNDERLINED),
{
    Style { fg: Some(Color::Rgb(128, 255, 234)), bg: None, add_modifier: UNDERLINED }
}

/// Labels (pink).
pub fn style_label() -> (s: Style)
    ensures
        s == fg_style(255, 128, 191, 0),
{
    Style { fg: Some(Color::Rgb(255, 128, 191)), bg: None, add_modifier: 0 }
}

/// Headings (bright green, bold and underlined).
pub fn style_heading() -> (s: Style)
    ensures
        s == fg_style(162, 255, 153, BOLD | UNDERLINED),
{
    Style { fg: Some(Color::Rgb(162, 255, 153)), bg: None, add_modifier: BOLD | UNDERLINED }
}

/// Audio buttons (cyan).
pub fn style_audio() -> (s: Style)
    ensures
        s == fg_style(128, 255, 234, 0),
{
    Style { fg: Some(Color::Rgb(128, 255, 234)), bg: None, add_modifier: 0 }
}

/// Dimmed text (comment purple).
pub fn style_dim() -> (s: Style)
    ensures
        s == fg_style(121, 112, 169, DIM),
{
    Style { fg: Some(Color::Rgb(121, 112, 169)), bg: None, add_modifier: DIM }
}

/// The brackets around a badge (light grey, dimmed).
pub fn style_badge_border() -> (s: Style)
    ensures
        s == fg_style(180, 180, 190, DIM),
{
    Style { fg: Some(Color::Rgb(180, 180, 190)), bg: None, add_modifier: DIM }
}

/// The inside of a badge (white on muted purple, bold).
pub fn style_badge_inner() -> (s: Style)
    ensures
        s == fg_bg_style(248, 248, 242, 121, 112, 169, BOLD),
{
    Style {
        fg: Some(Color::Rgb(248, 248, 242)),
        bg: Some(Color::Rgb(121, 112, 169)),
        add_modifier: BOLD,
    }
}

/// Signpost labels (white on dark teal, bold).
pub fn style_signpost() -> (s: Style)
    ensures
        s == fg_bg_style(248, 248, 242, 63, 115, 115, BOLD),
{
    Style {
        fg: Some(Color::Rgb(248, 248, 242)),
        bg: Some(Color::Rgb(63, 115, 115)),
        add_modifier: BOLD,
    }
}

/// Section box headings (white on muted purple, bold).
pub fn style_section_heading() -> (s: Style)
    ensures
        s == fg_bg_style(248, 248, 242, 121, 112, 169, BOLD),
{
    Style {
        fg: Some(Color::Rgb(248, 248, 242)),
        bg: Some(Color::Rgb(121, 112, 169)),
        add_modifier: BOLD,
    }
}

} // verus!
