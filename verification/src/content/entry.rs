//! The dictionary-entry pass: the XML nodes of an entry become the blocks
//! of its page. Block-level elements start blocks, an element stack gives
//! the style of each text, and a last step moves leading sense numbers and
//! bullets of a block into a prefix.

use vstd::prelude::*;

use crate::app::{chars_contain, contains_chars};
use crate::content::page::{
    Block, ContentPage, Inline, InlineView, after_push_badge, after_push_headword, after_push_signpost,
    after_push_text, inlines_view,
};
use crate::content::style::{
    BOLD, Color, DIM, Style, fg_style, style_def, style_default, style_dim, style_example, style_heading,
    style_headword, style_label, style_pos, style_ref,
};
use crate::content::transform::{
    BlockView, block_view, page_view, st_default, st_dim, st_example, st_heading, st_headword, st_pos,
    st_ref,
};
use crate::content::xml::{NodeView, XmlNode, attrs_view, nodes_of_events, nodes_view, parse_xml, spec_xml_events};
use crate::data::idm::eq_ignore_ascii_case;
use crate::history::str_equal;
use crate::labels::{last_index_of, last_segment, split_words, words_eq_ignore_ascii_case, words_of};
use crate::text::{
    char_is_whitespace, chars_of, lead_ws, lemma_lead_ws_bound, push_char, spec_is_whitespace,
    spec_str_lowercase, spec_trim, str_lowercase, string_from_chars, trail_ws, trim_chars,
};

verus! {

/// `t` names, ignoring ASCII case, an element that starts a block of its own.
pub open spec fn is_block_tag(t: Seq<char>) -> bool {
    ||| eq_ignore_ascii_case("Entry"@, t)
    ||| eq_ignore_ascii_case("Head"@, t)
    ||| eq_ignore_ascii_case("Sense"@, t)
    ||| eq_ignore_ascii_case("Subsense"@, t)
    ||| eq_ignore_ascii_case("EXAMPLE"@, t)
    ||| eq_ignore_ascii_case("GramExa"@, t)
    ||| eq_ignore_ascii_case("ColloExa"@, t)
    ||| eq_ignore_ascii_case("Deriv"@, t)
    ||| eq_ignore_ascii_case("RunOn"@, t)
    ||| eq_ignore_ascii_case("PhrVbEntry"@, t)
    ||| eq_ignore_ascii_case("GramBox"@, t)
    ||| eq_ignore_ascii_case("Exponent"@, t)
    ||| eq_ignore_ascii_case("Section"@, t)
    ||| eq_ignore_ascii_case("SECHEADING"@, t)
    ||| eq_ignore_ascii_case("SpokenSect"@, t)
    ||| eq_ignore_ascii_case("ThesBox"@, t)
    ||| eq_ignore_ascii_case("ColloBox"@, t)
    ||| eq_ignore_ascii_case("F2NBox"@, t)
    ||| eq_ignore_ascii_case("Crossref"@, t)
    ||| eq_ignore_ascii_case("Hint"@, t)
    ||| eq_ignore_ascii_case("ColloGram"@, t)
}

/// `t` spells `lit`, ignoring ASCII case.
fn tag_is(t: &[char], lit: &str) -> (r: bool)
    ensures
        r == eq_ignore_ascii_case(lit@, t@),
{
    let l = chars_of(lit);
    words_eq_ignore_ascii_case(l.as_slice(), t)
}

/// Whether `tag` starts a block of its own.
fn block_tag(tag: &str) -> (r: bool)
    ensures
        r == is_block_tag(tag@),
{
    let t = chars_of(tag);
    let t = t.as_slice();
    tag_is(t, "Entry") || tag_is(t, "Head") || tag_is(t, "Sense") || tag_is(t, "Subsense")
        || tag_is(t, "EXAMPLE") || tag_is(t, "GramExa") || tag_is(t, "ColloExa") || tag_is(t, "Deriv")
        || tag_is(t, "RunOn") || tag_is(t, "PhrVbEntry") || tag_is(t, "GramBox") || tag_is(t, "Exponent")
        || tag_is(t, "Section") || tag_is(t, "SECHEADING") || tag_is(t, "SpokenSect")
        || tag_is(t, "ThesBox") || tag_is(t, "ColloBox") || tag_is(t, "F2NBox") || tag_is(t, "Crossref")
        || tag_is(t, "Hint") || tag_is(t, "ColloGram")
}

/// `t` names an element whose content is read without a style of its own.
pub open spec fn is_skip_tag(t: Seq<char>) -> bool {
    t == "ACTIV"@ || t == "INFLX"@ || t == "SE_EntryAssets"@ || t == "EntryAsset"@
}

/// Whether `tag` is read without a style of its own.
fn skip_tag(tag: &str) -> (r: bool)
    ensures
        r == is_skip_tag(tag@),
{
    str_equal(tag, "ACTIV") || str_equal(tag, "INFLX") || str_equal(tag, "SE_EntryAssets")
        || str_equal(tag, "EntryAsset")
}

/// `t`, lower-cased, contains "collo".
pub open spec fn has_collo(t: Seq<char>) -> bool {
    contains_chars(spec_str_lowercase(t), "collo"@)
}

/// Whether `tag`, lower-cased, contains "collo".
fn tag_has_collo(tag: &str) -> (r: bool)
    ensures
        r == has_collo(tag@),
{
    let l = str_lowercase(tag);
    let lc = chars_of(l.as_str());
    let q = chars_of("collo");
    chars_contain(lc.as_slice(), q.as_slice())
}

/// The value of the first attribute named `key` from position `i` on.
pub open spec fn attr_from(a: Seq<(Seq<char>, Seq<char>)>, key: Seq<char>, i: int) -> Option<Seq<char>>
    decreases a.len() - i,
{
    if i < 0 || i >= a.len() {
        None
    } else if a[i].0 == key {
        Some(a[i].1)
    } else {
        attr_from(a, key, i + 1)
    }
}

/// The value of the first attribute named `key`.
pub open spec fn attr_lookup(a: Seq<(Seq<char>, Seq<char>)>, key: Seq<char>) -> Option<Seq<char>> {
    attr_from(a, key, 0)
}

/// The plain value of an optional string.
pub open spec fn opt_chars(o: Option<String>) -> Option<Seq<char>> {
    match o {
        Some(s) => Some(s@),
        None => None,
    }
}

/// The value of the first attribute named `key`, if any.
fn attr_get(attrs: &[(String, String)], key: &str) -> (r: Option<String>)
    ensures
        opt_chars(r) == attr_lookup(attrs_view(attrs@), key@),
{
    let ghost av = attrs_view(attrs@);
    let mut i: usize = 0;
    while i < attrs.len()
        invariant
            i <= attrs@.len(),
            av == attrs_view(attrs@),
            attr_from(av, key@, 0) == attr_from(av, key@, i as int),
        decreases attrs@.len() - i,
    {
        if str_equal(attrs[i].0.as_str(), key) {
            return Some(attrs[i].1.clone());
        }
        i = i + 1;
    }
    None
}

/// The attribute named `key`, or the empty string.
fn attr_or_empty(attrs: &[(String, String)], key: &str) -> (r: String)
    ensures
        r@ == attr_or_nothing(attrs_view(attrs@), key@),
{
    match attr_get(attrs, key) {
        Some(v) => v,
        None => String::new(),
    }
}

/// The value of the attribute named `key`, or nothing.
pub open spec fn attr_or_nothing(a: Seq<(Seq<char>, Seq<char>)>, key: Seq<char>) -> Seq<char> {
    match attr_lookup(a, key) {
        Some(v) => v,
        None => Seq::empty(),
    }
}

/// The style that an element gives its text, from its name and its class
/// attribute.
pub open spec fn tag_style(t: Seq<char>, class: Option<Seq<char>>) -> Style {
    if t == "HWD"@ || t == "BASE"@ {
        st_headword()
    } else if t == "POS"@ {
        st_pos()
    } else if t == "DEF"@ {
        st_default()
    } else if t == "EXAMPLE"@ || t == "GramExa"@ || t == "ColloExa"@ {
        st_example()
    } else if t == "Ref"@ || t == "NonDV"@ {
        st_ref()
    } else if t == "FIELD"@ || t == "REGISTERLAB"@ || t == "ACTIV"@ {
        fg_style(255, 128, 191, 0)
    } else if t == "FREQ"@ || t == "HEADING"@ {
        fg_style(162, 255, 153, BOLD)
    } else if t == "GRAM"@ || t == "PRON"@ {
        fg_style(255, 255, 128, 0)
    } else if t == "SECHEADING"@ {
        st_heading()
    } else if t == "SIGNPOST"@ {
        fg_style(255, 255, 128, BOLD)
    } else if t == "coll-head"@ || t == "COLLO"@ {
        Style { fg: None, bg: None, add_modifier: BOLD }
    } else if t == "coll-note"@ {
        fg_style(121, 112, 169, 0)
    } else if t == "span"@ {
        if class == Some("sensenum"@) {
            fg_style(255, 255, 128, BOLD)
        } else if class == Some("heading"@) {
            st_heading()
        } else if class == Some("def"@) {
            st_default()
        } else if class == Some("exabullet"@) {
            st_dim()
        } else {
            st_default()
        }
    } else {
        st_default()
    }
}

/// Whether the optional string `o` holds `lit`.
fn opt_is(o: &Option<String>, lit: &str) -> (r: bool)
    ensures
        r == (opt_chars(*o) == Some(lit@)),
{
    match o {
        Some(v) => str_equal(v.as_str(), lit),
        None => false,
    }
}

/// The style that the element `tag` with the attributes `attrs` gives its
/// text.
pub fn style_for_tag(tag: &str, attrs: &[(String, String)]) -> (r: Style)
    ensures
        r == tag_style(tag@, attr_lookup(attrs_view(attrs@), "class"@)),
{
    let class = attr_get(attrs, "class");
    style_for_class(tag, &class)
}

/// The style that the element `tag` with the class attribute `class`
/// gives its text.
fn style_for_class(tag: &str, class: &Option<String>) -> (r: Style)
    ensures
        r == tag_style(tag@, opt_chars(*class)),
{
    if str_equal(tag, "HWD") || str_equal(tag, "BASE") {
        style_headword()
    } else if str_equal(tag, "POS") {
        style_pos()
    } else if str_equal(tag, "DEF") {
        style_def()
    } else if str_equal(tag, "EXAMPLE") || str_equal(tag, "GramExa") || str_equal(tag, "ColloExa") {
        style_example()
    } else if str_equal(tag, "Ref") || str_equal(tag, "NonDV") {
        style_ref()
    } else if str_equal(tag, "FIELD") || str_equal(tag, "REGISTERLAB") || str_equal(tag, "ACTIV") {
        style_label()
    } else if str_equal(tag, "FREQ") || str_equal(tag, "HEADING") {
        Style { fg: Some(Color::Rgb(162, 255, 153)), bg: None, add_modifier: BOLD }
    } else if str_equal(tag, "GRAM") || str_equal(tag, "PRON") {
        Style { fg: Some(Color::Rgb(255, 255, 128)), bg: None, add_modifier: 0 }
    } else if str_equal(tag, "SECHEADING") {
        style_heading()
    } else if str_equal(tag, "SIGNPOST") {
        Style { fg: Some(Color::Rgb(255, 255, 128)), bg: None, add_modifier: BOLD }
    } else if str_equal(tag, "coll-head") || str_equal(tag, "COLLO") {
        Style { fg: None, bg: None, add_modifier: BOLD }
    } else if str_equal(tag, "coll-note") {
        Style { fg: Some(Color::Rgb(121, 112, 169)), bg: None, add_modifier: 0 }
    } else if str_equal(tag, "span") {
        if opt_is(class, "sensenum") {
            Style { fg: Some(Color::Rgb(255, 255, 128)), bg: None, add_modifier: BOLD }
        } else if opt_is(class, "heading") {
            style_heading()
        } else if opt_is(class, "def") {
            style_def()
        } else if opt_is(class, "exabullet") {
            style_dim()
        } else {
            style_default()
        }
    } else {
        style_default()
    }
}

/// An entry of the element stack: name, style and the depth it was opened at.
pub open spec fn stack_view(v: Seq<(String, Style, u8)>) -> Seq<(Seq<char>, Style, u8)> {
    v.map_values(|e: (String, Style, u8)| (e.0@, e.1, e.2))
}

/// Some open element is named `t`.
pub open spec fn stack_has(st: Seq<(Seq<char>, Style, u8)>, t: Seq<char>) -> bool {
    exists|k: int| 0 <= k < st.len() && #[trigger] st[k].0 == t
}

/// Whether some open element is named `t`.
fn stack_has_tag(stack: &Vec<(String, Style, u8)>, t: &str) -> (r: bool)
    ensures
        r == stack_has(stack_view(stack@), t@),
{
    let ghost sv = stack_view(stack@);
    let mut i: usize = 0;
    while i < stack.len()
        invariant
            i <= stack@.len(),
            sv == stack_view(stack@),
            forall|k: int| 0 <= k < i ==> sv[k].0 != t@,
        decreases stack@.len() - i,
    {
        if str_equal(stack[i].0.as_str(), t) {
            assert(sv[i as int].0 == t@);
            return true;
        }
        i = i + 1;
    }
    false
}

/// Some open element's name, lower-cased, contains "collo".
pub open spec fn stack_in_collo(st: Seq<(Seq<char>, Style, u8)>) -> bool {
    exists|k: int| 0 <= k < st.len() && has_collo(#[trigger] st[k].0)
}

/// Whether some open element's name, lower-cased, contains "collo".
fn stack_collo(stack: &Vec<(String, Style, u8)>) -> (r: bool)
    ensures
        r == stack_in_collo(stack_view(stack@)),
{
    let ghost sv = stack_view(stack@);
    let mut i: usize = 0;
    while i < stack.len()
        invariant
            i <= stack@.len(),
            sv == stack_view(stack@),
            forall|k: int| 0 <= k < i ==> !has_collo(#[trigger] sv[k].0),
        decreases stack@.len() - i,
    {
        if tag_has_collo(stack[i].0.as_str()) {
            assert(has_collo(sv[i as int].0));
            return true;
        }
        i = i + 1;
    }
    false
}

/// The style of the innermost open element that has a style of its own,
/// or no style.
pub open spec fn inner_style(st: Seq<(Seq<char>, Style, u8)>) -> Style
    decreases st.len(),
{
    if st.len() == 0 {
        Style { fg: None, bg: None, add_modifier: 0 }
    } else if !is_skip_tag(st.last().0) {
        st.last().1
    } else {
        inner_style(st.drop_last())
    }
}

/// The style of the innermost open element that has a style of its own.
fn innermost_style(stack: &Vec<(String, Style, u8)>) -> (r: Style)
    ensures
        r == inner_style(stack_view(stack@)),
{
    let ghost sv = stack_view(stack@);
    let mut j: usize = stack.len();
    assert(sv.take(sv.len() as int) =~= sv);
    while j > 0
        invariant
            j <= stack@.len(),
            sv == stack_view(stack@),
            inner_style(sv) == inner_style(sv.take(j as int)),
        decreases j,
    {
        assert(sv.take(j as int).drop_last() =~= sv.take(j - 1));
        if !skip_tag(stack[j - 1].0.as_str()) {
            return stack[j - 1].1;
        }
        j = j - 1;
    }
    Style::default()
}

/// The position of the last open element named `t`.
pub open spec fn last_pos(st: Seq<(Seq<char>, Style, u8)>, t: Seq<char>) -> Option<int>
    decreases st.len(),
{
    if st.len() == 0 {
        None
    } else if st.last().0 == t {
        Some(st.len() - 1)
    } else {
        last_pos(st.drop_last(), t)
    }
}

/// The position of the last open element named `t`, if any.
fn last_position(stack: &Vec<(String, Style, u8)>, t: &str) -> (r: Option<usize>)
    ensures
        match r {
            Some(p) => last_pos(stack_view(stack@), t@) == Some(p as int) && p < stack@.len(),
            None => last_pos(stack_view(stack@), t@) is None,
        },
{
    let ghost sv = stack_view(stack@);
    let mut j: usize = stack.len();
    assert(sv.take(sv.len() as int) =~= sv);
    while j > 0
        invariant
            j <= stack@.len(),
            sv == stack_view(stack@),
            last_pos(sv, t@) == last_pos(sv.take(j as int), t@),
        decreases j,
    {
        assert(sv.take(j as int).drop_last() =~= sv.take(j - 1));
        if str_equal(stack[j - 1].0.as_str(), t) {
            return Some(j - 1);
        }
        j = j - 1;
    }
    None
}

/// The audio-cue markers of `s` removed: an inverted question mark, and
/// a bracketed tag right after it, up to and including its `]`. The state
/// is the text kept and where the scan is: 0 in plain text, 1 right after
/// a marker, 2 inside its brackets.
pub open spec fn strip_scan(s: Seq<char>) -> (u8, Seq<char>)
    decreases s.len(),
{
    if s.len() == 0 {
        (0, Seq::empty())
    } else {
        let (m, out) = strip_scan(s.drop_last());
        let c = s.last();
        if m == 2 {
            if c == ']' {
                (0, out)
            } else {
                (2, out)
            }
        } else if m == 1 && c == '[' {
            (2, out)
        } else if c == '\u{BF}' {
            (1, out)
        } else {
            (0, out.push(c))
        }
    }
}

/// `s` without its audio-cue markers.
pub open spec fn strip_markers(s: Seq<char>) -> Seq<char> {
    strip_scan(s).1
}

/// `text` without its audio-cue markers.
fn strip_audio_markers(text: &str) -> (r: String)
    ensures
        r@ == strip_markers(text@),
{
    let cs = chars_of(text);
    let mut out = String::new();
    let mut m: u8 = 0;
    let mut i: usize = 0;
    while i < cs.len()
        invariant
            i <= cs@.len(),
            cs@ == text@,
            (m, out@) == strip_scan(cs@.take(i as int)),
        decreases cs@.len() - i,
    {
        assert(cs@.take(i + 1).drop_last() =~= cs@.take(i as int));
        let c = cs[i];
        if m == 2 {
            if c == ']' {
                m = 0;
            }
        } else if m == 1 && c == '[' {
            m = 2;
        } else if c == '\u{BF}' {
            m = 1;
        } else {
            push_char(&mut out, c);
            m = 0;
        }
        i = i + 1;
    }
    assert(cs@.take(cs@.len() as int) =~= cs@);
    out
}

/// The value of the decimal digits `d`.
pub open spec fn digits_value(d: Seq<char>) -> int
    decreases d.len(),
{
    if d.len() == 0 {
        0
    } else {
        digits_value(d.drop_last()) * 10 + (d.last() as int - '0' as int)
    }
}

/// Every character of `d` is an ASCII digit.
pub open spec fn all_digits(d: Seq<char>) -> bool {
    forall|i: int| 0 <= i < d.len() ==> '0' <= #[trigger] d[i] <= '9'
}

/// The digits of a sense number: `s` trimmed, without one leading `+`.
pub open spec fn sense_digits(s: Seq<char>) -> Seq<char> {
    let t = spec_trim(s);
    if t.len() > 0 && t[0] == '+' {
        t.drop_first()
    } else {
        t
    }
}

/// The sense number that `s` spells, when it reads as an unsigned number
/// from 1 to 20.
pub open spec fn sense_number(s: Seq<char>) -> Option<int> {
    let d = sense_digits(s);
    if d.len() > 0 && all_digits(d) && 1 <= digits_value(d) <= 20 {
        Some(digits_value(d))
    } else {
        None
    }
}

/// The circled numbers from 1 to 20.
pub open spec fn circled_digits() -> Seq<char> {
    seq![
        '\u{2460}', '\u{2461}', '\u{2462}', '\u{2463}', '\u{2464}', '\u{2465}', '\u{2466}', '\u{2467}',
        '\u{2468}', '\u{2469}', '\u{246A}', '\u{246B}', '\u{246C}', '\u{246D}', '\u{246E}', '\u{246F}',
        '\u{2470}', '\u{2471}', '\u{2472}', '\u{2473}',
    ]
}

/// A sense number from 1 to 20 as its circled character, any other text
/// unchanged.
pub open spec fn circled(s: Seq<char>) -> Seq<char> {
    match sense_number(s) {
        Some(n) => seq![circled_digits()[n - 1]],
        None => s,
    }
}

proof fn lemma_digits_push(d: Seq<char>, c: char)
    ensures
        digits_value(d.push(c)) == digits_value(d) * 10 + (c as int - '0' as int),
{
    assert(d.push(c).drop_last() =~= d);
}

proof fn lemma_digits_nonneg(d: Seq<char>)
    requires
        all_digits(d),
    ensures
        digits_value(d) >= 0,
    decreases d.len(),
{
    if d.len() > 0 {
        assert(all_digits(d.drop_last()));
        lemma_digits_nonneg(d.drop_last());
        assert('0' <= d[d.len() - 1] <= '9');
    }
}

/// The decimal form of a number is all digits and reads back as it.
proof fn lemma_decimal_digits(n: nat)
    ensures
        crate::search::incremental::spec_decimal(n).len() > 0,
        all_digits(crate::search::incremental::spec_decimal(n)),
        digits_value(crate::search::incremental::spec_decimal(n)) == n,
    decreases n,
{
    let d = crate::search::incremental::spec_decimal(n);
    if n >= 10 {
        lemma_decimal_digits(n / 10);
        let p = crate::search::incremental::spec_decimal(n / 10);
        let c = ((('0' as u32) + (n % 10) as u32) as char);
        assert(d == p.push(c));
        assert(c as int == 48 + n % 10);
        lemma_digits_push(p, c);
        assert('0' as int == 48);
        assert(n == (n / 10) * 10 + n % 10);
        assert(digits_value(d) == digits_value(p) * 10 + (c as int - '0' as int));
        assert forall|i: int| 0 <= i < d.len() implies '0' <= #[trigger] d[i] <= '9' by {
            if i < p.len() {
                assert(d[i] == p[i]);
            }
        }
    } else {
        let c = ((('0' as u32) + (n % 10) as u32) as char);
        assert(d == seq![c]);
        assert(c as int == 48 + n % 10);
        assert(d.drop_last() =~= Seq::<char>::empty());
        assert(d.last() == c);
        assert('0' as int == 48);
        assert(digits_value(d) == digits_value(d.drop_last()) * 10 + (c as int - '0' as int));
    }
}

/// A sense number from 1 to 20, written in decimal, shows as the circled
/// number of that value: the character U+2460 for 1, and each next number
/// the next character, up to U+2473 for 20.
pub proof fn lemma_circled_sense_numbers(n: nat)
    requires
        1 <= n <= 20,
    ensures
        circled(crate::search::incremental::spec_decimal(n)) == seq![(0x2460 + n - 1) as char],
{
    let d = crate::search::incremental::spec_decimal(n);
    lemma_decimal_digits(n);
    assert('0' <= d[0] <= '9');
    assert('0' <= d[d.len() - 1] <= '9');
    assert(lead_ws(d) == 0);
    assert(trail_ws(d) == 0);
    assert(spec_trim(d) =~= d);
    assert(sense_number(d) == Some(n as int));
    let t = circled_digits();
    assert(t[0] == '\u{2460}' && t[1] == '\u{2461}' && t[2] == '\u{2462}' && t[3] == '\u{2463}' && t[4] == '\u{2464}'
        && t[5] == '\u{2465}' && t[6] == '\u{2466}' && t[7] == '\u{2467}' && t[8] == '\u{2468}' && t[9] == '\u{2469}'
        && t[10] == '\u{246A}' && t[11] == '\u{246B}' && t[12] == '\u{246C}' && t[13] == '\u{246D}' && t[14]
        == '\u{246E}' && t[15] == '\u{246F}' && t[16] == '\u{2470}' && t[17] == '\u{2471}' && t[18] == '\u{2472}'
        && t[19] == '\u{2473}');
}

/// `s` as a circled number when it spells a sense number from 1 to 20,
/// else `s`.
fn to_circled_number(s: &str) -> (r: String)
    ensures
        r@ == circled(s@),
{
    let cs = chars_of(s);
    let t = trim_chars(cs.as_slice());
    let start: usize = if t.len() > 0 && t[0] == '+' {
        1
    } else {
        0
    };
    let ghost d = sense_digits(s@);
    assert(d =~= t@.subrange(start as int, t@.len() as int));
    if start >= t.len() {
        return String::from_str(s);
    }
    let mut v: u32 = 0;
    let mut i: usize = start;
    while i < t.len()
        invariant
            start <= i <= t@.len(),
            d == sense_digits(s@),
            d =~= t@.subrange(start as int, t@.len() as int),
            all_digits(t@.subrange(start as int, i as int)),
            v as int == if digits_value(t@.subrange(start as int, i as int)) < 1000 {
                digits_value(t@.subrange(start as int, i as int))
            } else {
                1000
            },
        decreases t@.len() - i,
    {
        let c = t[i];
        let ghost pre = t@.subrange(start as int, i as int);
        assert(t@.subrange(start as int, i + 1) =~= pre.push(c));
        if !('0' <= c && c <= '9') {
            assert(!all_digits(d)) by {
                assert(d[i - start] == c);
            }
            assert(sense_number(s@) is None);
            return String::from_str(s);
        }
        proof {
            lemma_digits_push(pre, c);
            lemma_digits_nonneg(pre);
            assert(all_digits(pre.push(c)));
        }
        let x = v * 10 + ((c as u32) - ('0' as u32));
        v = if x < 1000 {
            x
        } else {
            1000
        };
        i = i + 1;
    }
    assert(t@.subrange(start as int, i as int) =~= d);
    if 1 <= v && v <= 20 {
        let table = [
            '\u{2460}', '\u{2461}', '\u{2462}', '\u{2463}', '\u{2464}', '\u{2465}', '\u{2466}', '\u{2467}',
            '\u{2468}', '\u{2469}', '\u{246A}', '\u{246B}', '\u{246C}', '\u{246D}', '\u{246E}', '\u{246F}',
            '\u{2470}', '\u{2471}', '\u{2472}', '\u{2473}',
        ];
        assert(table@ =~= circled_digits());
        let mut out = String::new();
        push_char(&mut out, table[(v - 1) as usize]);
        assert(out@ =~= seq![circled_digits()[v - 1]]);
        out
    } else {
        String::from_str(s)
    }
}

/// The part of `s` after its last `/`, or all of it.
fn last_segment_of(s: &str) -> (r: String)
    ensures
        r@ == last_segment(s@),
{
    let cs = chars_of(s);
    let n = cs.len();
    let mut j = n;
    assert(cs@.subrange(0, n as int) =~= s@);
    while j > 0 && cs[j - 1] != '/'
        invariant
            j <= n,
            n == cs@.len(),
            cs@ == s@,
            last_index_of(s@, '/') == last_index_of(cs@.subrange(0, j as int), '/'),
        decreases j,
    {
        assert(cs@.subrange(0, j as int).drop_last() =~= cs@.subrange(0, j - 1));
        j = j - 1;
    }
    if j > 0 {
        assert(last_index_of(cs@.subrange(0, j as int), '/') == Some(j - 1));
    } else {
        assert(cs@.subrange(0, 0) =~= Seq::<char>::empty());
        assert(s@.subrange(0, n as int) =~= s@);
    }
    String::from_str(s.substring_char(j, n))
}

/// `s` without its leading white space.
pub open spec fn trim_start(s: Seq<char>) -> Seq<char> {
    s.subrange(lead_ws(s), s.len() as int)
}

/// `v` without its leading white space.
fn trim_start_chars(v: &[char]) -> (r: Vec<char>)
    ensures
        r@ == trim_start(v@),
{
    let n = v.len();
    let mut i: usize = 0;
    proof {
        lemma_lead_ws_bound(v@);
        assert(v@.subrange(0, n as int) =~= v@);
    }
    while i < n && char_is_whitespace(v[i])
        invariant
            i <= n,
            n == v@.len(),
            lead_ws(v@) == i + lead_ws(v@.subrange(i as int, n as int)),
        decreases n - i,
    {
        assert(v@.subrange(i as int, n as int).drop_first() =~= v@.subrange(i + 1, n as int));
        i = i + 1;
    }
    let mut r: Vec<char> = Vec::new();
    let mut k = i;
    while k < n
        invariant
            i <= k <= n,
            n == v@.len(),
            lead_ws(v@) == i,
            r@ =~= v@.subrange(i as int, k as int),
        decreases n - k,
    {
        r.push(v[k]);
        k = k + 1;
    }
    r
}

/// The class `cls`, lower-cased, has "exabullet" among its words.
pub open spec fn is_exabullet(cls: Seq<char>) -> bool {
    words_of(spec_str_lowercase(cls)).contains("exabullet"@)
}

/// Whether the class attribute `cls` marks an example bullet.
fn class_is_exabullet(cls: &str) -> (r: bool)
    ensures
        r == is_exabullet(cls@),
{
    let l = str_lowercase(cls);
    let lc = chars_of(l.as_str());
    let ws = split_words(lc.as_slice());
    let ghost wv = ws@.map_values(|w: Vec<char>| w@);
    let mut i: usize = 0;
    while i < ws.len()
        invariant
            i <= ws@.len(),
            wv == ws@.map_values(|w: Vec<char>| w@),
            wv == words_of(spec_str_lowercase(cls@)),
            forall|k: int| 0 <= k < i ==> wv[k] != "exabullet"@,
        decreases ws@.len() - i,
    {
        if crate::content::types::chars_equal(ws[i].as_slice(), "exabullet") {
            assert(wv[i as int] == "exabullet"@);
            return true;
        }
        i = i + 1;
    }
    false
}

/// The title of an audio button for the resource `res`.
pub open spec fn audio_title(res: Seq<char>) -> Seq<char> {
    if res == "gb_hwd_pron"@ {
        "British"@
    } else if res == "us_hwd_pron"@ {
        "American"@
    } else {
        "Play"@
    }
}

/// The audio button of an `Audio` element with the attributes `a`: its
/// path is the lower-cased resource and the file name of the topic.
pub open spec fn audio_button(a: Seq<(Seq<char>, Seq<char>)>) -> InlineView {
    let res = spec_str_lowercase(attr_or_nothing(a, "resource"@));
    let file = last_segment(attr_or_nothing(a, "topic"@));
    InlineView::AudioButton("/"@ + res + "/"@ + file, audio_title(res))
}

/// The audio button of an `Audio` element.
fn make_audio_button(attrs: &Vec<(String, String)>) -> (r: Inline)
    ensures
        r@ == audio_button(attrs_view(attrs@)),
{
    let topic = attr_or_empty(attrs.as_slice(), "topic");
    let res0 = attr_or_empty(attrs.as_slice(), "resource");
    let res = str_lowercase(res0.as_str());
    let file = last_segment_of(topic.as_str());
    let mut path = String::from_str("/");
    path.append(res.as_str());
    path.append("/");
    path.append(file.as_str());
    let title = if str_equal(res.as_str(), "gb_hwd_pron") {
        String::from_str("British")
    } else if str_equal(res.as_str(), "us_hwd_pron") {
        String::from_str("American")
    } else {
        String::from_str("Play")
    };
    Inline::AudioButton { path, title }
}

/// State of the entry pass: the blocks made, the open elements (name,
/// style, depth when opened), the block being built and the depth.
pub struct EntryState {
    pub page: Seq<BlockView>,
    pub stack: Seq<(Seq<char>, Style, u8)>,
    pub cur: BlockView,
    pub depth: u8,
}

/// `page` with `cur` added when `cur` holds something.
pub open spec fn flushed(page: Seq<BlockView>, cur: BlockView) -> Seq<BlockView> {
    if cur.inlines.len() > 0 {
        page.push(cur)
    } else {
        page
    }
}

/// An empty block at `indent`.
pub open spec fn fresh_block(indent: u8) -> BlockView {
    BlockView { indent, inlines: Seq::empty(), is_collo: false, is_heading: false }
}

/// The depth after `d`, wrapping around at 256.
pub open spec fn next_depth(d: u8) -> u8 {
    if d == 255 {
        0
    } else {
        (d + 1) as u8
    }
}

/// `d`, at most 6.
pub open spec fn cap6(d: u8) -> u8 {
    if d < 6 {
        d
    } else {
        6
    }
}

/// The indentation of a block under the element opened at depth `d`.
pub open spec fn parent_indent(d: u8) -> u8 {
    if d == 0 {
        0
    } else {
        cap6((d - 1) as u8)
    }
}

/// `s` with `i` added to the block being built.
pub open spec fn with_inline(s: EntryState, i: InlineView) -> EntryState {
    EntryState { cur: BlockView { inlines: s.cur.inlines.push(i), ..s.cur }, ..s }
}

/// An element `t` with the attributes `a` opens. Elements read without a
/// style only deepen the stack. A block-level element ends the block being
/// built and starts one a level deeper. Audio, illustration, reference and
/// line-break elements add their inline element; an example bullet starts a
/// block at the parent level. The element then goes on the stack with the
/// depth at which it opened, which its closing restores, so that sibling
/// elements share one level.
pub open spec fn entry_open(s: EntryState, t: Seq<char>, a: Seq<(Seq<char>, Seq<char>)>) -> EntryState {
    if is_skip_tag(t) {
        EntryState { stack: s.stack.push((t, st_default(), s.depth)), depth: next_depth(s.depth), ..s }
    } else {
        let class = attr_lookup(a, "class"@);
        let style = tag_style(t, class);
        let blk = is_block_tag(t);
        let eff = if t == "span"@ && class == Some("sensenum"@) {
            "sensenum"@
        } else {
            t
        };
        let s1 = if blk {
            EntryState {
                page: flushed(s.page, s.cur),
                cur: BlockView {
                    indent: cap6(s.depth),
                    inlines: Seq::empty(),
                    is_collo: has_collo(t),
                    is_heading: eq_ignore_ascii_case("SECHEADING"@, t),
                },
                depth: next_depth(s.depth),
                ..s
            }
        } else {
            s
        };
        if t == "Ref"@ {
            let link = InlineView::Link(Seq::empty(), "/fs/"@ + attr_or_nothing(a, "topic"@));
            let s2 = with_inline(s1, link);
            EntryState { stack: s2.stack.push((t, style, s2.depth)), depth: next_depth(s2.depth), ..s2 }
        } else {
            let s2 = if t == "Audio"@ {
                with_inline(s1, audio_button(a))
            } else if t == "ILLUSTRATION"@ {
                with_inline(s1, InlineView::Image(last_segment(attr_or_nothing(a, "thumb"@))))
            } else if t == "br"@ {
                with_inline(s1, InlineView::LineBreak)
            } else if t == "span"@ && class is Some && is_exabullet(class->Some_0) {
                EntryState {
                    page: flushed(s1.page, s1.cur),
                    cur: BlockView {
                        indent: parent_indent(s1.depth),
                        inlines: Seq::empty(),
                        is_collo: stack_in_collo(s1.stack),
                        is_heading: false,
                    },
                    ..s1
                }
            } else {
                s1
            };
            EntryState {
                stack: s2.stack.push((eff, style, s.depth)),
                depth: if blk {
                    s2.depth
                } else {
                    next_depth(s2.depth)
                },
                ..s2
            }
        }
    }
}

/// An element `t` closes: the last open element of that name (a sense
/// number for a `span` inside one) leaves the stack and restores its depth;
/// a block-level element ends its block.
pub open spec fn entry_close(s: EntryState, t: Seq<char>) -> EntryState {
    let search = if t == "span"@ && stack_has(s.stack, "sensenum"@) {
        "sensenum"@
    } else {
        t
    };
    match last_pos(s.stack, search) {
        Some(p) => {
            let d = s.stack[p].2;
            let s1 = EntryState { stack: s.stack.remove(p), depth: d, ..s };
            if is_block_tag(t) {
                EntryState { page: flushed(s1.page, s1.cur), cur: fresh_block(parent_indent(d)), ..s1 }
            } else {
                s1
            }
        },
        None => s,
    }
}

/// Text `raw` is read: without its audio cues, it fills an empty link that
/// ends the block, or is added as headword, sense number, badge, signpost,
/// heading or text, by the elements it stands in.
pub open spec fn entry_text(s: EntryState, raw: Seq<char>) -> EntryState {
    let x = strip_markers(raw);
    let style = inner_style(s.stack);
    let v = s.cur.inlines;
    let st = s.stack;
    if v.len() > 0 && v.last() is Link && v.last()->Link_0.len() == 0 {
        let filled = v.update(v.len() - 1, InlineView::Link(x, v.last()->Link_1));
        EntryState { cur: BlockView { inlines: filled, ..s.cur }, ..s }
    } else if !(stack_has(st, "INFLX"@) || stack_has(st, "SE_EntryAssets"@)) && (stack_has(st, "HWD"@)
        || stack_has(st, "BASE"@)) {
        EntryState { cur: BlockView { inlines: after_push_headword(v, x), ..s.cur }, ..s }
    } else if stack_has(st, "sensenum"@) {
        EntryState { cur: BlockView { inlines: after_push_text(v, spec_trim(circled(x)), style), ..s.cur }, ..s }
    } else if stack_has(st, "FREQ"@) || stack_has(st, "AC"@) {
        EntryState { cur: BlockView { inlines: after_push_badge(v, x), ..s.cur }, ..s }
    } else if stack_has(st, "SIGNPOST"@) {
        EntryState { cur: BlockView { inlines: after_push_signpost(v, x), ..s.cur }, ..s }
    } else if stack_has(st, "HEADING"@) {
        EntryState {
            cur: BlockView { inlines: after_push_text(v, x, st_heading()), is_heading: true, ..s.cur },
            ..s
        }
    } else {
        EntryState { cur: BlockView { inlines: after_push_text(v, x, style), ..s.cur }, ..s }
    }
}

/// One node of the entry pass.
pub open spec fn entry_step(s: EntryState, n: NodeView) -> EntryState {
    match n {
        NodeView::Open(t, a) => entry_open(s, t, a),
        NodeView::Close(t) => entry_close(s, t),
        NodeView::Text(x) => entry_text(s, x),
    }
}

/// The entry pass over `nodes`.
pub open spec fn entry_run(nodes: Seq<NodeView>) -> EntryState
    decreases nodes.len(),
{
    if nodes.len() == 0 {
        EntryState { page: Seq::empty(), stack: Seq::empty(), cur: fresh_block(0), depth: 0 }
    } else {
        entry_step(entry_run(nodes.drop_last()), nodes.last())
    }
}

/// A circled number.
pub open spec fn is_circled_char(c: char) -> bool {
    0x2460 <= c as u32 <= 0x2473
}

/// A bullet character.
pub open spec fn is_bullet_char(c: char) -> bool {
    c == '\u{2022}' || c == '\u{25CF}' || c == '\u{25AA}' || c == '-' || c == '\u{2013}' || c == '\u{2014}'
}

/// `b` with a circled number or bullet that starts its first text moved
/// into a prefix: the number itself in the part-of-speech style, a bullet
/// as a triangle in the dim style.
pub open spec fn with_prefix(b: BlockView) -> BlockView {
    if b.inlines.len() > 0 && b.inlines[0] is Text {
        let s = b.inlines[0]->Text_0;
        let k = lead_ws(s);
        if k < s.len() && (is_circled_char(s[k]) || is_bullet_char(s[k])) {
            let rest = trim_start(s.subrange(k + 1, s.len() as int));
            let tail = if rest.len() == 0 {
                b.inlines.drop_first()
            } else {
                b.inlines.update(0, InlineView::Text(rest, b.inlines[0]->Text_1))
            };
            let prefix = if is_circled_char(s[k]) {
                InlineView::Prefix(seq![s[k]], st_pos())
            } else {
                InlineView::Prefix("\u{25B6}"@, st_dim())
            };
            BlockView { inlines: seq![prefix] + tail, ..b }
        } else {
            b
        }
    } else {
        b
    }
}

/// The blocks of the entry whose XML reads as `nodes`.
pub open spec fn entry_blocks(nodes: Seq<NodeView>) -> Seq<BlockView> {
    let s = entry_run(nodes);
    flushed(s.page, s.cur).map_values(|b: BlockView| with_prefix(b))
}

/// The blocks made, the element stack, the block being built and the depth.
struct EntryBuilder {
    page: Vec<Block>,
    stack: Vec<(String, Style, u8)>,
    cur: Block,
    depth: u8,
}

impl EntryBuilder {
    spec fn state(&self) -> EntryState {
        EntryState {
            page: page_view(self.page@),
            stack: stack_view(self.stack@),
            cur: block_view(self.cur),
            depth: self.depth,
        }
    }

    /// Ends the block being built and starts `b`.
    fn start_block(&mut self, b: Block)
        ensures
            final(self).state() == (EntryState {
                page: flushed(old(self).state().page, old(self).state().cur),
                cur: block_view(b),
                ..old(self).state()
            }),
    {
        let ghost p0 = page_view(self.page@);
        let mut prev = b;
        std::mem::swap(&mut self.cur, &mut prev);
        if prev.inlines.len() > 0 {
            self.page.push(prev);
            assert(page_view(self.page@) =~= p0.push(block_view(prev)));
        }
    }

    /// Adds `i` to the block being built.
    fn add_inline(&mut self, i: Inline)
        ensures
            final(self).state() == with_inline(old(self).state(), i@),
    {
        let ghost v0 = self.cur.inlines@;
        self.cur.inlines.push(i);
        assert(inlines_view(self.cur.inlines@) =~= inlines_view(v0).push(i@));
    }

    /// Puts an element on the stack.
    fn push_elem(&mut self, t: String, style: Style, d: u8)
        ensures
            final(self).state() == (EntryState {
                stack: old(self).state().stack.push((t@, style, d)),
                ..old(self).state()
            }),
    {
        let ghost s0 = self.stack@;
        self.stack.push((t, style, d));
        assert(stack_view(self.stack@) =~= stack_view(s0).push((t@, style, d)));
    }

    fn deepen(&mut self)
        ensures
            final(self).state() == (EntryState { depth: next_depth(old(self).depth), ..old(self).state() }),
    {
        self.depth = if self.depth == 255 {
            0
        } else {
            self.depth + 1
        };
    }

    /// The element `tag` closes.
    fn close_node(&mut self, tag: &String)
        ensures
            final(self).state() == entry_close(old(self).state(), tag@),
    {
        let in_sense = stack_has_tag(&self.stack, "sensenum");
        let search: &str = if str_equal(tag.as_str(), "span") && in_sense {
            "sensenum"
        } else {
            tag.as_str()
        };
        match last_position(&self.stack, search) {
            Some(p) => {
                let d = self.stack[p].2;
                let ghost s0 = self.stack@;
                let _ = self.stack.remove(p);
                assert(stack_view(self.stack@) =~= stack_view(s0).remove(p as int));
                self.depth = d;
                if block_tag(tag.as_str()) {
                    let ind: u8 = if d == 0 {
                        0
                    } else if d - 1 < 6 {
                        d - 1
                    } else {
                        6
                    };
                    let b = Block::new(ind);
                    assert(block_view(b).inlines =~= Seq::<InlineView>::empty());
                    self.start_block(b);
                }
            },
            None => {},
        }
    }

    /// The text `raw` is read.
    #[verifier::rlimit(40)]
    fn text_node(&mut self, raw: &String)
        ensures
            final(self).state() == entry_text(old(self).state(), raw@),
    {
        let ghost s0 = self.state();
        let ghost v = inlines_view(self.cur.inlines@);
        let x = strip_audio_markers(raw.as_str());
        let style = innermost_style(&self.stack);
        let ghost raw_inlines = self.cur.inlines@;
        match self.cur.inlines.pop() {
            Some(Inline::Link { text, target }) => {
                if text.as_str().is_empty() {
                    self.cur.inlines.push(Inline::Link { text: x, target });
                    assert(inlines_view(self.cur.inlines@) =~= v.update(v.len() - 1, InlineView::Link(x@, v.last()->Link_1)));
                    return;
                }
                self.cur.inlines.push(Inline::Link { text, target });
                assert(self.cur.inlines@ =~= raw_inlines);
            },
            Some(other) => {
                self.cur.inlines.push(other);
                assert(self.cur.inlines@ =~= raw_inlines);
            },
            None => {
                assert(self.cur.inlines@ =~= raw_inlines);
            },
        }
        let inflx = stack_has_tag(&self.stack, "INFLX") || stack_has_tag(&self.stack, "SE_EntryAssets");
        let hwd = stack_has_tag(&self.stack, "HWD") || stack_has_tag(&self.stack, "BASE");
        if !inflx && hwd {
            self.cur.push_headword(x.as_str());
        } else if stack_has_tag(&self.stack, "sensenum") {
            let c = to_circled_number(x.as_str());
            let cc = chars_of(c.as_str());
            let tc = trim_chars(cc.as_slice());
            let t = string_from_chars(tc.as_slice());
            self.cur.push_text(t.as_str(), style);
        } else if stack_has_tag(&self.stack, "FREQ") || stack_has_tag(&self.stack, "AC") {
            self.cur.push_badge(x.as_str());
        } else if stack_has_tag(&self.stack, "SIGNPOST") {
            self.cur.push_signpost(x.as_str());
        } else if stack_has_tag(&self.stack, "HEADING") {
            self.cur.is_heading = true;
            self.cur.push_text(x.as_str(), style_heading());
        } else {
            self.cur.push_text(x.as_str(), style);
        }
    }

    /// The element `tag` with the attributes `attrs` opens.
    #[verifier::rlimit(40)]
    fn open_node(&mut self, tag: &String, attrs: &Vec<(String, String)>)
        ensures
            final(self).state() == entry_open(old(self).state(), tag@, attrs_view(attrs@)),
    {
        let ghost s0 = self.state();
        let ghost a = attrs_view(attrs@);
        if skip_tag(tag.as_str()) {
            self.push_elem(tag.clone(), style_default(), self.depth);
            self.deepen();
            return;
        }
        let class = attr_get(attrs.as_slice(), "class");
        let style = style_for_class(tag.as_str(), &class);
        let blk = block_tag(tag.as_str());
        let d0 = self.depth;
        let eff = if str_equal(tag.as_str(), "span") && opt_is(&class, "sensenum") {
            String::from_str("sensenum")
        } else {
            tag.clone()
        };
        if blk {
            let mut b = Block::new(if self.depth < 6 {
                self.depth
            } else {
                6
            });
            b.is_collo = tag_has_collo(tag.as_str());
            let tc = chars_of(tag.as_str());
            b.is_heading = tag_is(tc.as_slice(), "SECHEADING");
            assert(b.inlines@ =~= Seq::<Inline>::empty());
            assert(block_view(b).inlines =~= Seq::<InlineView>::empty());
            self.start_block(b);
            self.deepen();
        }
        let ghost s1 = self.state();
        if str_equal(tag.as_str(), "Ref") {
            let topic = attr_or_empty(attrs.as_slice(), "topic");
            let mut target = String::from_str("/fs/");
            target.append(topic.as_str());
            self.add_inline(Inline::Link { text: String::new(), target });
            self.push_elem(tag.clone(), style, self.depth);
            self.deepen();
            return;
        }
        if str_equal(tag.as_str(), "Audio") {
            let btn = make_audio_button(attrs);
            self.add_inline(btn);
        } else if str_equal(tag.as_str(), "ILLUSTRATION") {
            let thumb = attr_or_empty(attrs.as_slice(), "thumb");
            let filename = last_segment_of(thumb.as_str());
            self.add_inline(Inline::Image { filename });
        } else if str_equal(tag.as_str(), "br") {
            self.add_inline(Inline::LineBreak);
        } else if str_equal(tag.as_str(), "span") {
            match &class {
                Some(c) => {
                    if class_is_exabullet(c.as_str()) {
                        let collo = stack_collo(&self.stack);
                        let ind: u8 = if self.depth == 0 {
                            0
                        } else if self.depth - 1 < 6 {
                            self.depth - 1
                        } else {
                            6
                        };
                        let mut b = Block::new(ind);
                        b.is_collo = collo;
                        assert(block_view(b).inlines =~= Seq::<InlineView>::empty());
                        self.start_block(b);
                    }
                },
                None => {},
            }
        }
        self.push_elem(eff, style, d0);
        if !blk {
            self.deepen();
        }
    }
}

/// Moves a circled number or bullet that starts the first text of `b` into
/// a prefix.
fn add_prefix(b: &mut Block)
    ensures
        block_view(*final(b)) == with_prefix(block_view(*old(b))),
{
    if b.inlines.len() == 0 {
        return;
    }
    let ghost v = inlines_view(b.inlines@);
    let (text, st) = match &b.inlines[0] {
        Inline::Text(t, st) => (t.clone(), *st),
        _ => {
            return;
        },
    };
    assert(v[0] == InlineView::Text(text@, st));
    let cs = chars_of(text.as_str());
    let n = cs.len();
    let mut k: usize = 0;
    proof {
        lemma_lead_ws_bound(cs@);
        assert(cs@.subrange(0, n as int) =~= cs@);
    }
    while k < n && char_is_whitespace(cs[k])
        invariant
            k <= n,
            n == cs@.len(),
            lead_ws(cs@) == k + lead_ws(cs@.subrange(k as int, n as int)),
        decreases n - k,
    {
        assert(cs@.subrange(k as int, n as int).drop_first() =~= cs@.subrange(k + 1, n as int));
        k = k + 1;
    }
    if k >= n {
        return;
    }
    proof {
        if lead_ws(cs@.subrange(k as int, n as int)) > 0 {
            assert(cs@.subrange(k as int, n as int)[0] == cs@[k as int]);
        }
    }
    let ch = cs[k];
    let code = ch as u32;
    let circ = 0x2460 <= code && code <= 0x2473;
    let bullet = ch == '\u{2022}' || ch == '\u{25CF}' || ch == '\u{25AA}' || ch == '-' || ch == '\u{2013}'
        || ch == '\u{2014}';
    if !circ && !bullet {
        return;
    }
    let mut after: Vec<char> = Vec::new();
    let mut j = k + 1;
    while j < n
        invariant
            k < j <= n,
            n == cs@.len(),
            after@ =~= cs@.subrange(k + 1, j as int),
        decreases n - j,
    {
        after.push(cs[j]);
        j = j + 1;
    }
    let rest = trim_start_chars(after.as_slice());
    let _ = b.inlines.remove(0);
    if rest.len() > 0 {
        let rs = string_from_chars(rest.as_slice());
        b.inlines.insert(0, Inline::Text(rs, st));
        assert(inlines_view(b.inlines@) =~= v.update(0, InlineView::Text(rest@, st)));
    } else {
        assert(inlines_view(b.inlines@) =~= v.drop_first());
    }
    let ghost tail = inlines_view(b.inlines@);
    let prefix = if circ {
        let mut p = String::new();
        push_char(&mut p, ch);
        Inline::Prefix(p, style_pos())
    } else {
        Inline::Prefix(String::from_str("\u{25B6}"), style_dim())
    };
    b.inlines.insert(0, prefix);
    assert(inlines_view(b.inlines@) =~= seq![prefix@] + tail);
}

/// The page of the entry whose XML reads as `nodes`.
pub fn entry_page(nodes: &[XmlNode]) -> (r: ContentPage)
    ensures
        page_view(r@) == entry_blocks(nodes_view(nodes@)),
{
    let ghost nv = nodes_view(nodes@);
    let mut eb = EntryBuilder { page: Vec::new(), stack: Vec::new(), cur: Block::new(0), depth: 0 };
    assert(page_view(eb.page@) =~= Seq::<BlockView>::empty());
    assert(stack_view(eb.stack@) =~= Seq::<(Seq<char>, Style, u8)>::empty());
    assert(block_view(eb.cur) == fresh_block(0)) by {
        assert(inlines_view(eb.cur.inlines@) =~= Seq::<InlineView>::empty());
    }
    let mut i: usize = 0;
    while i < nodes.len()
        invariant
            i <= nodes@.len(),
            nv == nodes_view(nodes@),
            eb.state() == entry_run(nv.take(i as int)),
        decreases nodes@.len() - i,
    {
        proof {
            assert(nv.take(i + 1).drop_last() =~= nv.take(i as int));
            assert(nv[i as int] == nodes@[i as int]@);
        }
        match &nodes[i] {
            XmlNode::Open { tag, attrs } => eb.open_node(tag, attrs),
            XmlNode::Close { tag } => eb.close_node(tag),
            XmlNode::Text(t) => eb.text_node(t),
        }
        i = i + 1;
    }
    assert(nv.take(nv.len() as int) =~= nv);
    eb.start_block(Block::new(0));
    let mut page = eb.page;
    let ghost blocks = page_view(page@);
    let ghost orig = page@;
    let mut out: Vec<Block> = Vec::new();
    let mut k: usize = 0;
    let n = page.len();
    while page.len() > 0
        invariant
            n == orig.len(),
            k + page@.len() == n,
            page@ =~= orig.subrange(k as int, n as int),
            blocks == page_view(orig),
            page_view(out@) =~= blocks.take(k as int).map_values(|b: BlockView| with_prefix(b)),
        decreases page@.len(),
    {
        let mut b = page.remove(0);
        assert(b == orig[k as int]);
        add_prefix(&mut b);
        let ghost o0 = page_view(out@);
        out.push(b);
        assert(page_view(out@) =~= o0.push(block_view(b)));
        assert(blocks.take(k + 1) =~= blocks.take(k as int).push(blocks[k as int]));
        k = k + 1;
    }
    assert(blocks.take(n as int) =~= blocks);
    out
}

/// The page of the dictionary entry `xml`.
pub fn transform_entry(xml: &[u8]) -> (r: ContentPage)
    ensures
        page_view(r@) == entry_blocks(nodes_of_events(spec_xml_events(xml@))),
{
    let nodes = parse_xml(xml);
    let r = entry_page(nodes.as_slice());
    assert(page_view(r@) == entry_blocks(nodes_view(nodes@)));
    r
}

} // verus!
