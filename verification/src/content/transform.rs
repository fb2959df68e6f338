//! Turning dictionary XML into pages: one transformer per content type,
//! each a pass over the XML nodes that collects styled text into blocks.

use vstd::prelude::*;

use crate::content::page::{InlineView, after_push_text, inlines_view};
use crate::content::style::{
    BOLD, DIM, ITALIC, UNDERLINED, Style, fg_style, style_default, style_dim, style_example,
    style_heading, style_headword, style_pos, style_ref,
};
use crate::content::xml::{NodeView, XmlNode, nodes_of_events, nodes_view, parse_xml, spec_xml_events};
pub use crate::content::entry::{entry_blocks, entry_page, style_for_tag, transform_entry};
pub use crate::content::page::{Block, ContentPage, Inline};
pub use crate::content::render::{Line, Span, Text, to_ratatui_text};
use crate::content::types::ContentType;
use crate::history::str_equal;

verus! {

/// The plain value of a block.
pub struct BlockView {
    pub indent: u8,
    pub inlines: Seq<InlineView>,
    pub is_collo: bool,
    pub is_heading: bool,
}

/// The plain value of a block.
pub open spec fn block_view(b: Block) -> BlockView {
    BlockView { indent: b.indent, inlines: inlines_view(b.inlines@), is_collo: b.is_collo, is_heading: b.is_heading }
}

/// The plain values of a page.
pub open spec fn page_view(p: Seq<Block>) -> Seq<BlockView> {
    p.map_values(|b: Block| block_view(b))
}

/// The inline elements after appending the texts `ts`, each in its style.
pub open spec fn texts_pushed(v: Seq<InlineView>, ts: Seq<(Seq<char>, Style)>) -> Seq<InlineView>
    decreases ts.len(),
{
    if ts.len() == 0 {
        v
    } else {
        after_push_text(texts_pushed(v, ts.drop_last()), ts.last().0, ts.last().1)
    }
}

/// A new block at `indent` with the texts `ts` appended.
pub open spec fn text_block(indent: u8, ts: Seq<(Seq<char>, Style)>) -> BlockView {
    BlockView { indent, inlines: texts_pushed(Seq::empty(), ts), is_collo: false, is_heading: false }
}

/// Ordinary text.
pub open spec fn st_default() -> Style {
    fg_style(248, 248, 242, 0)
}

/// Headings.
pub open spec fn st_heading() -> Style {
    fg_style(162, 255, 153, BOLD | UNDERLINED)
}

/// Headwords.
pub open spec fn st_headword() -> Style {
    fg_style(153, 255, 238, BOLD)
}

/// Parts of speech.
pub open spec fn st_pos() -> Style {
    fg_style(255, 255, 128, 0)
}

/// Cross-references.
pub open spec fn st_ref() -> Style {
    fg_style(128, 255, 234, UNDERLINED)
}

/// Examples.
pub open spec fn st_example() -> Style {
    fg_style(138, 255, 128, ITALIC)
}

/// Dimmed text.
pub open spec fn st_dim() -> Style {
    fg_style(121, 112, 169, DIM)
}

/// A new block at `indent` holding the texts pushed one after the other.
fn text_block_of(indent: u8, texts: &[(&str, Style)]) -> (b: Block)
    ensures
        block_view(b) == text_block(indent, texts@.map_values(|t: (&str, Style)| (t.0@, t.1))),
{
    let mut b = Block::new(indent);
    let ghost tv = texts@.map_values(|t: (&str, Style)| (t.0@, t.1));
    let mut i: usize = 0;
    assert(inlines_view(b.inlines@) =~= Seq::<InlineView>::empty());
    while i < texts.len()
        invariant
            i <= texts@.len(),
            tv == texts@.map_values(|t: (&str, Style)| (t.0@, t.1)),
            b.indent == indent,
            !b.is_collo,
            !b.is_heading,
            inlines_view(b.inlines@) == texts_pushed(Seq::empty(), tv.take(i as int)),
        decreases texts@.len() - i,
    {
        let (t, st) = texts[i];
        b.push_text(t, st);
        proof {
            assert(tv.take(i + 1).drop_last() =~= tv.take(i as int));
        }
        i = i + 1;
    }
    assert(tv.take(tv.len() as int) =~= tv);
    b
}

/// A new block at `indent` with the text `t` in style `st`.
fn block1(indent: u8, t: &str, st: Style) -> (b: Block)
    ensures
        block_view(b) == text_block(indent, seq![(t@, st)]),
{
    let arr = [(t, st)];
    let b = text_block_of(indent, &arr);
    assert(arr@.map_values(|t: (&str, Style)| (t.0@, t.1)) =~= seq![(t@, st)]);
    b
}

/// A new block at `indent` with two texts.
fn block2(indent: u8, t1: &str, s1: Style, t2: &str, s2: Style) -> (b: Block)
    ensures
        block_view(b) == text_block(indent, seq![(t1@, s1), (t2@, s2)]),
{
    let arr = [(t1, s1), (t2, s2)];
    let b = text_block_of(indent, &arr);
    assert(arr@.map_values(|t: (&str, Style)| (t.0@, t.1)) =~= seq![(t1@, s1), (t2@, s2)]);
    b
}

/// A new block at `indent` with three texts.
fn block3(indent: u8, t1: &str, s1: Style, t2: &str, s2: Style, t3: &str, s3: Style) -> (b: Block)
    ensures
        block_view(b) == text_block(indent, seq![(t1@, s1), (t2@, s2), (t3@, s3)]),
{
    let arr = [(t1, s1), (t2, s2), (t3, s3)];
    let b = text_block_of(indent, &arr);
    assert(arr@.map_values(|t: (&str, Style)| (t.0@, t.1)) =~= seq![(t1@, s1), (t2@, s2), (t3@, s3)]);
    b
}

/// A new block at `indent` with four texts.
fn block4(indent: u8, t1: &str, s1: Style, t2: &str, s2: Style, t3: &str, s3: Style, t4: &str, s4: Style) -> (b: Block)
    ensures
        block_view(b) == text_block(indent, seq![(t1@, s1), (t2@, s2), (t3@, s3), (t4@, s4)]),
{
    let arr = [(t1, s1), (t2, s2), (t3, s3), (t4, s4)];
    let b = text_block_of(indent, &arr);
    assert(arr@.map_values(|t: (&str, Style)| (t.0@, t.1)) =~= seq![(t1@, s1), (t2@, s2), (t3@, s3), (t4@, s4)]);
    b
}

/// State of the thesaurus pass: in a section heading, in an exponent
/// heading, the heading text, and the blocks made.
pub struct ThesState {
    pub in_sec: bool,
    pub in_exp: bool,
    pub heading: Seq<char>,
    pub page: Seq<BlockView>,
}

/// One node of the thesaurus pass: a section heading becomes a heading
/// block, each text of an exponent heading an indented block.
pub open spec fn thes_step(s: ThesState, n: NodeView) -> ThesState {
    match n {
        NodeView::Open(t, _) => if t == "SECHEADING"@ {
            ThesState { in_sec: true, heading: Seq::empty(), ..s }
        } else if t == "exp-head"@ {
            ThesState { in_exp: true, ..s }
        } else {
            s
        },
        NodeView::Close(t) => if t == "SECHEADING"@ {
            ThesState { in_sec: false, page: s.page.push(text_block(0, seq![(s.heading, st_heading())])), ..s }
        } else if t == "exp-head"@ {
            ThesState { in_exp: false, ..s }
        } else {
            s
        },
        NodeView::Text(x) => if s.in_sec {
            ThesState { heading: s.heading + x, ..s }
        } else if s.in_exp {
            ThesState { page: s.page.push(text_block(1, seq![(x, st_default())])), ..s }
        } else {
            s
        },
    }
}

/// The thesaurus pass over `nodes` from state `s`.
pub open spec fn thes_run(s: ThesState, nodes: Seq<NodeView>) -> ThesState
    decreases nodes.len(),
{
    if nodes.len() == 0 {
        s
    } else {
        thes_step(thes_run(s, nodes.drop_last()), nodes.last())
    }
}

/// The thesaurus page of the chunks `chunks`, each read from a fresh
/// state, appended to `page`.
pub open spec fn thes_chunks(page: Seq<BlockView>, chunks: Seq<Seq<NodeView>>) -> Seq<BlockView>
    decreases chunks.len(),
{
    if chunks.len() == 0 {
        page
    } else {
        thes_run(
            ThesState { in_sec: false, in_exp: false, heading: Seq::empty(), page: thes_chunks(page, chunks.drop_last()) },
            chunks.last(),
        ).page
    }
}

/// The nodes of each chunk.
pub open spec fn chunks_view(c: Seq<Vec<XmlNode>>) -> Seq<Seq<NodeView>> {
    c.map_values(|v: Vec<XmlNode>| nodes_view(v@))
}

/// The nodes read from each of the XML chunks.
pub open spec fn chunk_nodes(xml_chunks: Seq<&[u8]>) -> Seq<Seq<NodeView>> {
    Seq::new(xml_chunks.len(), |k: int| nodes_of_events(spec_xml_events(xml_chunks[k]@)))
}

/// The thesaurus page of XML chunks already read into nodes.
pub fn thesaurus_page(chunks: &[Vec<XmlNode>]) -> (r: ContentPage)
    ensures
        page_view(r@) == thes_chunks(Seq::empty(), chunks_view(chunks@)),
{
    let mut page: Vec<Block> = Vec::new();
    let ghost cv = chunks_view(chunks@);
    let mut c: usize = 0;
    assert(page_view(page@) =~= Seq::<BlockView>::empty());
    while c < chunks.len()
        invariant
            c <= chunks@.len(),
            cv == chunks_view(chunks@),
            page_view(page@) == thes_chunks(Seq::empty(), cv.take(c as int)),
        decreases chunks@.len() - c,
    {
        let nodes = &chunks[c];
        let ghost nv = nodes_view(nodes@);
        let ghost start = ThesState { in_sec: false, in_exp: false, heading: Seq::empty(), page: page_view(page@) };
        let mut in_sec = false;
        let mut in_exp = false;
        let mut heading = String::new();
        let mut i: usize = 0;
        while i < nodes.len()
            invariant
                i <= nodes@.len(),
                nv == nodes_view(nodes@),
                (ThesState { in_sec, in_exp, heading: heading@, page: page_view(page@) }) == thes_run(start, nv.take(i as int)),
            decreases nodes@.len() - i,
        {
            let ghost p0 = page_view(page@);
            proof {
                assert(nv.take(i + 1).drop_last() =~= nv.take(i as int));
                assert(nv[i as int] == nodes@[i as int]@);
            }
            match &nodes[i] {
                XmlNode::Open { tag, .. } => {
                    if str_equal(tag.as_str(), "SECHEADING") {
                        in_sec = true;
                        heading = String::new();
                    } else if str_equal(tag.as_str(), "exp-head") {
                        in_exp = true;
                    }
                },
                XmlNode::Close { tag } => {
                    if str_equal(tag.as_str(), "SECHEADING") {
                        in_sec = false;
                        let b = block1(0, heading.as_str(), style_heading());
                        page.push(b);
                        assert(page_view(page@) =~= p0.push(block_view(b)));
                    } else if str_equal(tag.as_str(), "exp-head") {
                        in_exp = false;
                    }
                },
                XmlNode::Text(t) => {
                    if in_sec {
                        heading.append(t.as_str());
                    } else if in_exp {
                        let b = block1(1, t.as_str(), style_default());
                        page.push(b);
                        assert(page_view(page@) =~= p0.push(block_view(b)));
                    }
                },
            }
            i = i + 1;
        }
        proof {
            assert(nv.take(nv.len() as int) =~= nv);
            assert(cv.take(c + 1).drop_last() =~= cv.take(c as int));
        }
        c = c + 1;
    }
    assert(cv.take(cv.len() as int) =~= cv);
    page
}

/// The thesaurus page of XML chunks.
pub fn transform_thesaurus(xml_chunks: &[&[u8]]) -> (r: ContentPage)
    ensures
        page_view(r@) == thes_chunks(Seq::empty(), chunk_nodes(xml_chunks@)),
{
    let mut chunks: Vec<Vec<XmlNode>> = Vec::new();
    let mut i: usize = 0;
    while i < xml_chunks.len()
        invariant
            i <= xml_chunks@.len(),
            chunks@.len() == i,
            forall|k: int| 0 <= k < i ==> #[trigger] chunks_view(chunks@)[k] == nodes_of_events(spec_xml_events(xml_chunks@[k]@)),
        decreases xml_chunks@.len() - i,
    {
        let ghost before = chunks@;
        chunks.push(parse_xml(xml_chunks[i]));
        i = i + 1;
        assert forall|k: int| 0 <= k < i implies #[trigger] chunks_view(chunks@)[k] == nodes_of_events(spec_xml_events(xml_chunks@[k]@)) by {
            assert(chunks_view(chunks@)[k] == nodes_view(chunks@[k]@));
            if k < i - 1 {
                assert(chunks@[k] == before[k]);
                assert(chunks_view(before)[k] == nodes_view(before[k]@));
            }
        }
    }
    let r = thesaurus_page(chunks.as_slice());
    assert(chunks_view(chunks@) =~= chunk_nodes(xml_chunks@));
    assert(page_view(r@) == thes_chunks(Seq::empty(), chunks_view(chunks@)));
    r
}

/// State of the collocations pass: the heading level, the heading text,
/// whether inside a heading, and the blocks made.
pub struct ColloState {
    pub depth: u32,
    pub heading: Seq<char>,
    pub in_heading: bool,
    pub page: Seq<BlockView>,
}

/// One node of the collocations pass: each heading becomes a block, a
/// top-level one in the heading style, others in the part-of-speech style.
pub open spec fn collo_step(s: ColloState, n: NodeView) -> ColloState {
    match n {
        NodeView::Open(t, _) => if t == "HEADING"@ {
            ColloState { depth: 1, in_heading: true, heading: Seq::empty(), ..s }
        } else if t == "SECHEADING"@ {
            ColloState { depth: 2, in_heading: true, heading: Seq::empty(), ..s }
        } else if t == "coll-head"@ {
            ColloState { in_heading: true, heading: Seq::empty(), ..s }
        } else {
            s
        },
        NodeView::Close(t) => if t == "HEADING"@ || t == "SECHEADING"@ || t == "coll-head"@ {
            let st = if s.depth <= 1 {
                st_heading()
            } else {
                st_pos()
            };
            let indent = if s.depth > 0 {
                (s.depth - 1) as u8
            } else {
                0u8
            };
            ColloState { in_heading: false, page: s.page.push(text_block(indent, seq![(s.heading, st)])), depth: 0, ..s }
        } else {
            s
        },
        NodeView::Text(x) => if s.in_heading {
            ColloState { heading: s.heading + x, ..s }
        } else {
            s
        },
    }
}

/// The collocations pass over `nodes`.
pub open spec fn collo_run(nodes: Seq<NodeView>) -> ColloState
    decreases nodes.len(),
{
    if nodes.len() == 0 {
        ColloState { depth: 0, heading: Seq::empty(), in_heading: false, page: Seq::empty() }
    } else {
        collo_step(collo_run(nodes.drop_last()), nodes.last())
    }
}

/// The collocations page of XML read into nodes.
pub fn collocations_page(nodes: &[XmlNode]) -> (r: ContentPage)
    ensures
        page_view(r@) == collo_run(nodes_view(nodes@)).page,
{
    let mut page: Vec<Block> = Vec::new();
    let ghost nv = nodes_view(nodes@);
    let mut depth: u32 = 0;
    let mut heading = String::new();
    let mut in_heading = false;
    let mut i: usize = 0;
    assert(page_view(page@) =~= Seq::<BlockView>::empty());
    while i < nodes.len()
        invariant
            i <= nodes@.len(),
            nv == nodes_view(nodes@),
            depth <= 2,
            (ColloState { depth, heading: heading@, in_heading, page: page_view(page@) }) == collo_run(nv.take(i as int)),
        decreases nodes@.len() - i,
    {
        let ghost p0 = page_view(page@);
        proof {
            assert(nv.take(i + 1).drop_last() =~= nv.take(i as int));
            assert(nv[i as int] == nodes@[i as int]@);
        }
        match &nodes[i] {
            XmlNode::Open { tag, .. } => {
                if str_equal(tag.as_str(), "HEADING") {
                    depth = 1;
                    in_heading = true;
                    heading = String::new();
                } else if str_equal(tag.as_str(), "SECHEADING") {
                    depth = 2;
                    in_heading = true;
                    heading = String::new();
                } else if str_equal(tag.as_str(), "coll-head") {
                    in_heading = true;
                    heading = String::new();
                }
            },
            XmlNode::Close { tag } => {
                if str_equal(tag.as_str(), "HEADING") || str_equal(tag.as_str(), "SECHEADING")
                    || str_equal(tag.as_str(), "coll-head") {
                    in_heading = false;
                    let st = if depth <= 1 {
                        style_heading()
                    } else {
                        style_pos()
                    };
                    let indent: u8 = if depth > 0 {
                        (depth - 1) as u8
                    } else {
                        0
                    };
                    let b = block1(indent, heading.as_str(), st);
                    page.push(b);
                    assert(page_view(page@) =~= p0.push(block_view(b)));
                    depth = 0;
                }
            },
            XmlNode::Text(t) => {
                if in_heading {
                    heading.append(t.as_str());
                }
            },
        }
        i = i + 1;
    }
    assert(nv.take(nv.len() as int) =~= nv);
    page
}

/// The collocations page of `xml`.
pub fn transform_collocations(xml: &[u8]) -> (r: ContentPage)
    ensures
        page_view(r@) == collo_run(nodes_of_events(spec_xml_events(xml@))).page,
{
    let nodes = parse_xml(xml);
    let r = collocations_page(nodes.as_slice());
    assert(page_view(r@) == collo_run(nodes_view(nodes@)).page);
    r
}

/// State of the word-families pass: the part of speech and the reference
/// being read, the group block being built, and the blocks made.
pub struct FamState {
    pub in_pos: bool,
    pub pos: Seq<char>,
    pub in_ref: bool,
    pub refw: Seq<char>,
    pub group: Option<BlockView>,
    pub page: Seq<BlockView>,
}

/// `b` with the texts `ts` appended.
pub open spec fn with_texts(b: BlockView, ts: Seq<(Seq<char>, Style)>) -> BlockView {
    BlockView { inlines: texts_pushed(b.inlines, ts), ..b }
}

/// One node of the word-families pass: each group becomes a block of its
/// parts of speech and references, when not empty.
pub open spec fn fam_step(s: FamState, n: NodeView) -> FamState {
    match n {
        NodeView::Open(t, _) => if t == "group"@ {
            FamState { group: Some(text_block(0, Seq::empty())), ..s }
        } else if t == "pos"@ {
            FamState { in_pos: true, pos: Seq::empty(), ..s }
        } else if t == "Ref"@ {
            FamState { in_ref: true, refw: Seq::empty(), ..s }
        } else {
            s
        },
        NodeView::Close(t) => if t == "group"@ {
            match s.group {
                Some(b) => FamState {
                    group: None,
                    page: if b.inlines.len() > 0 {
                        s.page.push(b)
                    } else {
                        s.page
                    },
                    ..s
                },
                None => s,
            }
        } else if t == "pos"@ {
            FamState {
                group: match s.group {
                    Some(b) => Some(with_texts(b, seq![(s.pos, st_heading()), (" "@, st_default())])),
                    None => None,
                },
                in_pos: false,
                ..s
            }
        } else if t == "Ref"@ {
            FamState {
                group: match s.group {
                    Some(b) => Some(with_texts(b, seq![(s.refw, st_ref()), ("  "@, st_default())])),
                    None => None,
                },
                in_ref: false,
                ..s
            }
        } else {
            s
        },
        NodeView::Text(x) => if s.in_pos {
            FamState { pos: s.pos + x, ..s }
        } else if s.in_ref {
            FamState { refw: s.refw + x, ..s }
        } else {
            s
        },
    }
}

/// The word-families pass over `nodes`.
pub open spec fn fam_run(nodes: Seq<NodeView>) -> FamState
    decreases nodes.len(),
{
    if nodes.len() == 0 {
        FamState { in_pos: false, pos: Seq::empty(), in_ref: false, refw: Seq::empty(), group: None, page: Seq::empty() }
    } else {
        fam_step(fam_run(nodes.drop_last()), nodes.last())
    }
}

/// The plain value of an optional block.
pub open spec fn opt_block_view(b: Option<Block>) -> Option<BlockView> {
    match b {
        Some(x) => Some(block_view(x)),
        None => None,
    }
}

/// Appends two texts to a block.
fn push_two(b: &mut Block, t1: &str, s1: Style, t2: &str, s2: Style)
    ensures
        block_view(*final(b)) == with_texts(block_view(*old(b)), seq![(t1@, s1), (t2@, s2)]),
{
    b.push_text(t1, s1);
    b.push_text(t2, s2);
    let ghost ts = seq![(t1@, s1), (t2@, s2)];
    assert(ts.drop_last().drop_last() =~= Seq::<(Seq<char>, Style)>::empty());
    assert(ts.drop_last() =~= seq![(t1@, s1)]);
    assert(ts.last() == (t2@, s2));
    assert(ts.drop_last().last() == (t1@, s1));
    reveal_with_fuel(texts_pushed, 3);
}

/// The word-families page of XML read into nodes.
pub fn word_families_page(nodes: &[XmlNode]) -> (r: ContentPage)
    ensures
        page_view(r@) == fam_run(nodes_view(nodes@)).page,
{
    let mut page: Vec<Block> = Vec::new();
    let ghost nv = nodes_view(nodes@);
    let mut in_pos = false;
    let mut pos = String::new();
    let mut in_ref = false;
    let mut refw = String::new();
    let mut group: Option<Block> = None;
    let mut i: usize = 0;
    assert(page_view(page@) =~= Seq::<BlockView>::empty());
    while i < nodes.len()
        invariant
            i <= nodes@.len(),
            nv == nodes_view(nodes@),
            (FamState { in_pos, pos: pos@, in_ref, refw: refw@, group: opt_block_view(group), page: page_view(page@) })
                == fam_run(nv.take(i as int)),
        decreases nodes@.len() - i,
    {
        let ghost p0 = page_view(page@);
        proof {
            assert(nv.take(i + 1).drop_last() =~= nv.take(i as int));
            assert(nv[i as int] == nodes@[i as int]@);
        }
        match &nodes[i] {
            XmlNode::Open { tag, .. } => {
                if str_equal(tag.as_str(), "group") {
                    let b = Block::new(0);
                    assert(inlines_view(b.inlines@) =~= Seq::<InlineView>::empty());
                    group = Some(b);
                } else if str_equal(tag.as_str(), "pos") {
                    in_pos = true;
                    pos = String::new();
                } else if str_equal(tag.as_str(), "Ref") {
                    in_ref = true;
                    refw = String::new();
                }
            },
            XmlNode::Close { tag } => {
                if str_equal(tag.as_str(), "group") {
                    match group {
                        Some(b) => {
                            if b.inlines.len() > 0 {
                                page.push(b);
                                assert(page_view(page@) =~= p0.push(block_view(b)));
                            }
                        },
                        None => {},
                    }
                    group = None;
                } else if str_equal(tag.as_str(), "pos") {
                    match group {
                        Some(mut b) => {
                            push_two(&mut b, pos.as_str(), style_heading(), " ", style_default());
                            group = Some(b);
                        },
                        None => {
                            group = None;
                        },
                    }
                    in_pos = false;
                } else if str_equal(tag.as_str(), "Ref") {
                    match group {
                        Some(mut b) => {
                            push_two(&mut b, refw.as_str(), style_ref(), "  ", style_default());
                            group = Some(b);
                        },
                        None => {
                            group = None;
                        },
                    }
                    in_ref = false;
                }
            },
            XmlNode::Text(t) => {
                if in_pos {
                    pos.append(t.as_str());
                } else if in_ref {
                    refw.append(t.as_str());
                }
            },
        }
        i = i + 1;
    }
    assert(nv.take(nv.len() as int) =~= nv);
    page
}

/// The word-families page of `xml`.
pub fn transform_word_families(xml: &[u8]) -> (r: ContentPage)
    ensures
        page_view(r@) == fam_run(nodes_of_events(spec_xml_events(xml@))).page,
{
    let nodes = parse_xml(xml);
    let r = word_families_page(nodes.as_slice());
    assert(page_view(r@) == fam_run(nodes_view(nodes@)).page);
    r
}

/// State of the phrases pass.
pub struct PhraseState {
    pub in_ref: bool,
    pub refw: Seq<char>,
    pub in_exa: bool,
    pub exa: Seq<char>,
    pub page: Seq<BlockView>,
}

/// One node of the phrases pass: each phrase becomes a heading block, each
/// example an indented bulleted block.
pub open spec fn phrase_step(s: PhraseState, n: NodeView) -> PhraseState {
    match n {
        NodeView::Open(t, _) => if t == "Ref"@ {
            PhraseState { in_ref: true, refw: Seq::empty(), ..s }
        } else if t == "exa"@ {
            PhraseState { in_exa: true, exa: Seq::empty(), ..s }
        } else {
            s
        },
        NodeView::Close(t) => if t == "Ref"@ {
            PhraseState { in_ref: false, page: s.page.push(text_block(0, seq![(s.refw, st_heading())])), ..s }
        } else if t == "exa"@ {
            PhraseState {
                in_exa: false,
                page: s.page.push(text_block(1, seq![("\u{2022} "@, st_dim()), (s.exa, st_example())])),
                ..s
            }
        } else {
            s
        },
        NodeView::Text(x) => if s.in_ref {
            PhraseState { refw: s.refw + x, ..s }
        } else if s.in_exa {
            PhraseState { exa: s.exa + x, ..s }
        } else {
            s
        },
    }
}

/// The phrases pass over `nodes`.
pub open spec fn phrase_run(nodes: Seq<NodeView>) -> PhraseState
    decreases nodes.len(),
{
    if nodes.len() == 0 {
        PhraseState { in_ref: false, refw: Seq::empty(), in_exa: false, exa: Seq::empty(), page: Seq::empty() }
    } else {
        phrase_step(phrase_run(nodes.drop_last()), nodes.last())
    }
}

/// The phrases page of XML read into nodes.
pub fn phrases_page(nodes: &[XmlNode]) -> (r: ContentPage)
    ensures
        page_view(r@) == phrase_run(nodes_view(nodes@)).page,
{
    let mut page: Vec<Block> = Vec::new();
    let ghost nv = nodes_view(nodes@);
    let mut in_ref = false;
    let mut refw = String::new();
    let mut in_exa = false;
    let mut exa = String::new();
    let mut i: usize = 0;
    assert(page_view(page@) =~= Seq::<BlockView>::empty());
    while i < nodes.len()
        invariant
            i <= nodes@.len(),
            nv == nodes_view(nodes@),
            (PhraseState { in_ref, refw: refw@, in_exa, exa: exa@, page: page_view(page@) }) == phrase_run(nv.take(i as int)),
        decreases nodes@.len() - i,
    {
        let ghost p0 = page_view(page@);
        proof {
            assert(nv.take(i + 1).drop_last() =~= nv.take(i as int));
            assert(nv[i as int] == nodes@[i as int]@);
        }
        match &nodes[i] {
            XmlNode::Open { tag, .. } => {
                if str_equal(tag.as_str(), "Ref") {
                    in_ref = true;
                    refw = String::new();
                } else if str_equal(tag.as_str(), "exa") {
                    in_exa = true;
                    exa = String::new();
                }
            },
            XmlNode::Close { tag } => {
                if str_equal(tag.as_str(), "Ref") {
                    in_ref = false;
                    let b = block1(0, refw.as_str(), style_heading());
                    page.push(b);
                    assert(page_view(page@) =~= p0.push(block_view(b)));
                } else if str_equal(tag.as_str(), "exa") {
                    in_exa = false;
                    let b = block2(1, "\u{2022} ", style_dim(), exa.as_str(), style_example());
                    page.push(b);
                    assert(page_view(page@) =~= p0.push(block_view(b)));
                }
            },
            XmlNode::Text(t) => {
                if in_ref {
                    refw.append(t.as_str());
                } else if in_exa {
                    exa.append(t.as_str());
                }
            },
        }
        i = i + 1;
    }
    assert(nv.take(nv.len() as int) =~= nv);
    page
}

/// The phrases page of `xml`.
pub fn transform_phrases(xml: &[u8]) -> (r: ContentPage)
    ensures
        page_view(r@) == phrase_run(nodes_of_events(spec_xml_events(xml@))).page,
{
    let nodes = parse_xml(xml);
    let r = phrases_page(nodes.as_slice());
    assert(page_view(r@) == phrase_run(nodes_view(nodes@)).page);
    r
}

/// State of the examples pass.
pub struct ExaState {
    pub in_hwd: bool,
    pub in_pos: bool,
    pub in_exa: bool,
    pub hwd: Seq<char>,
    pub pos: Seq<char>,
    pub exa: Seq<char>,
    pub page: Seq<BlockView>,
}

/// One node of the examples pass: each headword with its part of speech
/// becomes a block, each example an indented bulleted block.
pub open spec fn exa_step(s: ExaState, n: NodeView) -> ExaState {
    match n {
        NodeView::Open(t, _) => if t == "hwd"@ {
            ExaState { in_hwd: true, hwd: Seq::empty(), ..s }
        } else if t == "pos"@ {
            ExaState { in_pos: true, pos: Seq::empty(), ..s }
        } else if t == "exa"@ {
            ExaState { in_exa: true, exa: Seq::empty(), ..s }
        } else {
            s
        },
        NodeView::Close(t) => if t == "hwd"@ {
            ExaState { in_hwd: false, ..s }
        } else if t == "pos"@ {
            ExaState {
                in_pos: false,
                page: s.page.push(text_block(0, seq![(s.hwd, st_headword()), (" "@, st_default()), (s.pos, st_pos())])),
                ..s
            }
        } else if t == "exa"@ {
            ExaState {
                in_exa: false,
                page: s.page.push(text_block(1, seq![("\u{2022} "@, st_dim()), (s.exa, st_example())])),
                ..s
            }
        } else {
            s
        },
        NodeView::Text(x) => if s.in_hwd {
            ExaState { hwd: s.hwd + x, ..s }
        } else if s.in_pos {
            ExaState { pos: s.pos + x, ..s }
        } else if s.in_exa {
            ExaState { exa: s.exa + x, ..s }
        } else {
            s
        },
    }
}

/// The examples pass over `nodes`.
pub open spec fn exa_run(nodes: Seq<NodeView>) -> ExaState
    decreases nodes.len(),
{
    if nodes.len() == 0 {
        ExaState {
            in_hwd: false,
            in_pos: false,
            in_exa: false,
            hwd: Seq::empty(),
            pos: Seq::empty(),
            exa: Seq::empty(),
            page: Seq::empty(),
        }
    } else {
        exa_step(exa_run(nodes.drop_last()), nodes.last())
    }
}

/// The examples page of XML read into nodes.
pub fn examples_page(nodes: &[XmlNode]) -> (r: ContentPage)
    ensures
        page_view(r@) == exa_run(nodes_view(nodes@)).page,
{
    let mut page: Vec<Block> = Vec::new();
    let ghost nv = nodes_view(nodes@);
    let mut in_hwd = false;
    let mut in_pos = false;
    let mut in_exa = false;
    let mut hwd = String::new();
    let mut pos = String::new();
    let mut exa = String::new();
    let mut i: usize = 0;
    assert(page_view(page@) =~= Seq::<BlockView>::empty());
    while i < nodes.len()
        invariant
            i <= nodes@.len(),
            nv == nodes_view(nodes@),
            (ExaState { in_hwd, in_pos, in_exa, hwd: hwd@, pos: pos@, exa: exa@, page: page_view(page@) })
                == exa_run(nv.take(i as int)),
        decreases nodes@.len() - i,
    {
        let ghost p0 = page_view(page@);
        proof {
            assert(nv.take(i + 1).drop_last() =~= nv.take(i as int));
            assert(nv[i as int] == nodes@[i as int]@);
        }
        match &nodes[i] {
            XmlNode::Open { tag, .. } => {
                if str_equal(tag.as_str(), "hwd") {
                    in_hwd = true;
                    hwd = String::new();
                } else if str_equal(tag.as_str(), "pos") {
                    in_pos = true;
                    pos = String::new();
                } else if str_equal(tag.as_str(), "exa") {
                    in_exa = true;
                    exa = String::new();
                }
            },
            XmlNode::Close { tag } => {
                if str_equal(tag.as_str(), "hwd") {
                    in_hwd = false;
                } else if str_equal(tag.as_str(), "pos") {
                    in_pos = false;
                    let b = block3(0, hwd.as_str(), style_headword(), " ", style_default(), pos.as_str(), style_pos());
                    page.push(b);
                    assert(page_view(page@) =~= p0.push(block_view(b)));
                } else if str_equal(tag.as_str(), "exa") {
                    in_exa = false;
                    let b = block2(1, "\u{2022} ", style_dim(), exa.as_str(), style_example());
                    page.push(b);
                    assert(page_view(page@) =~= p0.push(block_view(b)));
                }
            },
            XmlNode::Text(t) => {
                if in_hwd {
                    hwd.append(t.as_str());
                } else if in_pos {
                    pos.append(t.as_str());
                } else if in_exa {
                    exa.append(t.as_str());
                }
            },
        }
        i = i + 1;
    }
    assert(nv.take(nv.len() as int) =~= nv);
    page
}

/// The examples page of `xml`.
pub fn transform_examples(xml: &[u8]) -> (r: ContentPage)
    ensures
        page_view(r@) == exa_run(nodes_of_events(spec_xml_events(xml@))).page,
{
    let nodes = parse_xml(xml);
    let r = examples_page(nodes.as_slice());
    assert(page_view(r@) == exa_run(nodes_view(nodes@)).page);
    r
}

/// The etymology page of `nodes`: one block of all their text, unless it
/// is empty.
pub open spec fn etymology_blocks(nodes: Seq<NodeView>) -> Seq<BlockView> {
    if text_block(0, all_texts(nodes)).inlines.len() > 0 {
        seq![text_block(0, all_texts(nodes))]
    } else {
        Seq::empty()
    }
}

/// The texts of `nodes`, each in the default style.
pub open spec fn all_texts(nodes: Seq<NodeView>) -> Seq<(Seq<char>, Style)>
    decreases nodes.len(),
{
    if nodes.len() == 0 {
        Seq::empty()
    } else {
        let prev = all_texts(nodes.drop_last());
        match nodes.last() {
            NodeView::Text(x) => prev.push((x, st_default())),
            _ => prev,
        }
    }
}

/// One block at indent 0 with every text of `nodes` appended.
fn all_text_block(nodes: &[XmlNode]) -> (b: Block)
    ensures
        block_view(b) == text_block(0, all_texts(nodes_view(nodes@))),
{
    let mut b = Block::new(0);
    let ghost nv = nodes_view(nodes@);
    let mut i: usize = 0;
    assert(inlines_view(b.inlines@) =~= Seq::<InlineView>::empty());
    while i < nodes.len()
        invariant
            i <= nodes@.len(),
            nv == nodes_view(nodes@),
            b.indent == 0,
            !b.is_collo,
            !b.is_heading,
            inlines_view(b.inlines@) == texts_pushed(Seq::empty(), all_texts(nv.take(i as int))),
        decreases nodes@.len() - i,
    {
        proof {
            assert(nv.take(i + 1).drop_last() =~= nv.take(i as int));
            assert(nv[i as int] == nodes@[i as int]@);
        }
        let ghost ts = all_texts(nv.take(i as int));
        match &nodes[i] {
            XmlNode::Text(t) => {
                b.push_text(t.as_str(), style_default());
                proof {
                    let x = (t@, st_default());
                    assert(all_texts(nv.take(i + 1)) == ts.push(x));
                    assert(ts.push(x).drop_last() =~= ts);
                }
            },
            _ => {
                assert(all_texts(nv.take(i + 1)) == ts);
            },
        }
        i = i + 1;
    }
    assert(nv.take(nv.len() as int) =~= nv);
    b
}

/// The etymologies page of XML read into nodes: one block of all its
/// texts, none when there is no text.
pub fn etymologies_page(nodes: &[XmlNode]) -> (r: ContentPage)
    ensures
        page_view(r@) == etymology_blocks(nodes_view(nodes@)),
{
    let b = all_text_block(nodes);
    let mut page: Vec<Block> = Vec::new();
    if b.inlines.len() > 0 {
        page.push(b);
        assert(page_view(page@) =~= seq![block_view(b)]);
    } else {
        assert(page_view(page@) =~= Seq::<BlockView>::empty());
    }
    page
}

/// The etymologies page of `xml`.
pub fn transform_etymologies(xml: &[u8]) -> (r: ContentPage)
    ensures
        page_view(r@) == etymology_blocks(nodes_of_events(spec_xml_events(xml@))),
{
    let nodes = parse_xml(xml);
    let r = etymologies_page(nodes.as_slice());
    assert(page_view(r@) == etymology_blocks(nodes_view(nodes@)));
    r
}

/// State of the word-sets pass.
pub struct SetState {
    pub in_name: bool,
    pub in_number: bool,
    pub in_hwd: bool,
    pub in_pos: bool,
    pub name: Seq<char>,
    pub number: Seq<char>,
    pub hwd: Seq<char>,
    pub pos: Seq<char>,
    pub page: Seq<BlockView>,
}

/// One node of the word-sets pass: each set becomes a heading block with
/// its size, each word an indented block with its part of speech.
pub open spec fn set_step(s: SetState, n: NodeView) -> SetState {
    match n {
        NodeView::Open(t, _) => if t == "name"@ {
            SetState { in_name: true, name: Seq::empty(), ..s }
        } else if t == "number"@ {
            SetState { in_number: true, number: Seq::empty(), ..s }
        } else if t == "hwd"@ {
            SetState { in_hwd: true, hwd: Seq::empty(), ..s }
        } else if t == "pos"@ {
            SetState { in_pos: true, pos: Seq::empty(), ..s }
        } else {
            s
        },
        NodeView::Close(t) => if t == "number"@ {
            SetState {
                in_number: false,
                page: s.page.push(
                    text_block(
                        0,
                        seq![(s.name, st_heading()), (" ("@, st_default()), (s.number, st_pos()), (")"@, st_default())],
                    ),
                ),
                ..s
            }
        } else if t == "name"@ {
            SetState { in_name: false, ..s }
        } else if t == "pos"@ {
            SetState {
                in_pos: false,
                page: s.page.push(text_block(1, seq![(s.hwd, st_ref()), (" "@, st_default()), (s.pos, st_pos())])),
                ..s
            }
        } else if t == "hwd"@ {
            SetState { in_hwd: false, ..s }
        } else {
            s
        },
        NodeView::Text(x) => SetState {
            name: if s.in_name {
                s.name + x
            } else {
                s.name
            },
            number: if s.in_number {
                s.number + x
            } else {
                s.number
            },
            hwd: if s.in_hwd {
                s.hwd + x
            } else {
                s.hwd
            },
            pos: if s.in_pos {
                s.pos + x
            } else {
                s.pos
            },
            ..s
        },
    }
}

/// The word-sets pass over `nodes` from state `s`.
pub open spec fn set_run(s: SetState, nodes: Seq<NodeView>) -> SetState
    decreases nodes.len(),
{
    if nodes.len() == 0 {
        s
    } else {
        set_step(set_run(s, nodes.drop_last()), nodes.last())
    }
}

/// The word-sets page of the chunks, each read from a fresh state,
/// appended to `page`.
pub open spec fn set_chunks(page: Seq<BlockView>, chunks: Seq<Seq<NodeView>>) -> Seq<BlockView>
    decreases chunks.len(),
{
    if chunks.len() == 0 {
        page
    } else {
        set_run(
            SetState {
                in_name: false,
                in_number: false,
                in_hwd: false,
                in_pos: false,
                name: Seq::empty(),
                number: Seq::empty(),
                hwd: Seq::empty(),
                pos: Seq::empty(),
                page: set_chunks(page, chunks.drop_last()),
            },
            chunks.last(),
        ).page
    }
}

/// The word-sets page of XML chunks already read into nodes.
pub fn word_sets_page(chunks: &[Vec<XmlNode>]) -> (r: ContentPage)
    ensures
        page_view(r@) == set_chunks(Seq::empty(), chunks_view(chunks@)),
{
    let mut page: Vec<Block> = Vec::new();
    let ghost cv = chunks_view(chunks@);
    let mut c: usize = 0;
    assert(page_view(page@) =~= Seq::<BlockView>::empty());
    while c < chunks.len()
        invariant
            c <= chunks@.len(),
            cv == chunks_view(chunks@),
            page_view(page@) == set_chunks(Seq::empty(), cv.take(c as int)),
        decreases chunks@.len() - c,
    {
        let nodes = &chunks[c];
        let ghost nv = nodes_view(nodes@);
        let ghost start = SetState {
            in_name: false,
            in_number: false,
            in_hwd: false,
            in_pos: false,
            name: Seq::empty(),
            number: Seq::empty(),
            hwd: Seq::empty(),
            pos: Seq::empty(),
            page: page_view(page@),
        };
        let mut in_name = false;
        let mut in_number = false;
        let mut in_hwd = false;
        let mut in_pos = false;
        let mut name = String::new();
        let mut number = String::new();
        let mut hwd = String::new();
        let mut pos = String::new();
        let mut i: usize = 0;
        while i < nodes.len()
            invariant
                i <= nodes@.len(),
                nv == nodes_view(nodes@),
                (SetState {
                    in_name,
                    in_number,
                    in_hwd,
                    in_pos,
                    name: name@,
                    number: number@,
                    hwd: hwd@,
                    pos: pos@,
                    page: page_view(page@),
                }) == set_run(start, nv.take(i as int)),
            decreases nodes@.len() - i,
        {
            let ghost p0 = page_view(page@);
            proof {
                assert(nv.take(i + 1).drop_last() =~= nv.take(i as int));
                assert(nv[i as int] == nodes@[i as int]@);
            }
            match &nodes[i] {
                XmlNode::Open { tag, .. } => {
                    if str_equal(tag.as_str(), "name") {
                        in_name = true;
                        name = String::new();
                    } else if str_equal(tag.as_str(), "number") {
                        in_number = true;
                        number = String::new();
                    } else if str_equal(tag.as_str(), "hwd") {
                        in_hwd = true;
                        hwd = String::new();
                    } else if str_equal(tag.as_str(), "pos") {
                        in_pos = true;
                        pos = String::new();
                    }
                },
                XmlNode::Close { tag } => {
                    if str_equal(tag.as_str(), "number") {
                        in_number = false;
                        let b = block4(
                            0,
                            name.as_str(),
                            style_heading(),
                            " (",
                            style_default(),
                            number.as_str(),
                            style_pos(),
                            ")",
                            style_default(),
                        );
                        page.push(b);
                        assert(page_view(page@) =~= p0.push(block_view(b)));
                    } else if str_equal(tag.as_str(), "name") {
                        in_name = false;
                    } else if str_equal(tag.as_str(), "pos") {
                        in_pos = false;
                        let b = block3(1, hwd.as_str(), style_ref(), " ", style_default(), pos.as_str(), style_pos());
                        page.push(b);
                        assert(page_view(page@) =~= p0.push(block_view(b)));
                    } else if str_equal(tag.as_str(), "hwd") {
                        in_hwd = false;
                    }
                },
                XmlNode::Text(t) => {
                    if in_name {
                        name.append(t.as_str());
                    }
                    if in_number {
                        number.append(t.as_str());
                    }
                    if in_hwd {
                        hwd.append(t.as_str());
                    }
                    if in_pos {
                        pos.append(t.as_str());
                    }
                },
            }
            i = i + 1;
        }
        proof {
            assert(nv.take(nv.len() as int) =~= nv);
            assert(cv.take(c + 1).drop_last() =~= cv.take(c as int));
        }
        c = c + 1;
    }
    assert(cv.take(cv.len() as int) =~= cv);
    page
}

/// The word-sets page of XML chunks.
pub fn transform_word_sets(xml_chunks: &[&[u8]]) -> (r: ContentPage)
    ensures
        page_view(r@) == set_chunks(Seq::empty(), chunk_nodes(xml_chunks@)),
{
    let mut chunks: Vec<Vec<XmlNode>> = Vec::new();
    let mut i: usize = 0;
    while i < xml_chunks.len()
        invariant
            i <= xml_chunks@.len(),
            chunks@.len() == i,
            forall|k: int| 0 <= k < i ==> #[trigger] chunks_view(chunks@)[k] == nodes_of_events(spec_xml_events(xml_chunks@[k]@)),
        decreases xml_chunks@.len() - i,
    {
        let ghost before = chunks@;
        chunks.push(parse_xml(xml_chunks[i]));
        i = i + 1;
        assert forall|k: int| 0 <= k < i implies #[trigger] chunks_view(chunks@)[k] == nodes_of_events(spec_xml_events(xml_chunks@[k]@)) by {
            assert(chunks_view(chunks@)[k] == nodes_view(chunks@[k]@));
            if k < i - 1 {
                assert(chunks@[k] == before[k]);
                assert(chunks_view(before)[k] == nodes_view(before[k]@));
            }
        }
    }
    let r = word_sets_page(chunks.as_slice());
    assert(chunks_view(chunks@) =~= chunk_nodes(xml_chunks@));
    assert(page_view(r@) == set_chunks(Seq::empty(), chunks_view(chunks@)));
    r
}

/// State of the activator's concept pass: whether inside a headword and a
/// section, their texts, and the blocks made.
pub struct ConceptState {
    pub in_hwd: bool,
    pub in_section: bool,
    pub hwd: Seq<char>,
    pub section: Seq<char>,
    pub page: Seq<BlockView>,
}

/// One node of the concept pass: a headword becomes a heading block, a
/// section a link-styled line under a triangle.
pub open spec fn concept_step(s: ConceptState, n: NodeView) -> ConceptState {
    match n {
        NodeView::Open(t, _) => if t == "HWD"@ {
            ConceptState { in_hwd: true, hwd: Seq::empty(), ..s }
        } else if t == "Section"@ {
            ConceptState { in_section: true, section: Seq::empty(), ..s }
        } else {
            s
        },
        NodeView::Close(t) => if t == "HWD"@ {
            ConceptState { in_hwd: false, page: s.page.push(text_block(0, seq![(s.hwd, st_heading())])), ..s }
        } else if t == "Section"@ {
            let b = text_block(1, seq![("\u{25B6} "@, st_dim()), (s.section, st_ref())]);
            ConceptState { in_section: false, page: s.page.push(b), ..s }
        } else {
            s
        },
        NodeView::Text(x) => ConceptState {
            hwd: if s.in_hwd {
                s.hwd + x
            } else {
                s.hwd
            },
            section: if s.in_section {
                s.section + x
            } else {
                s.section
            },
            ..s
        },
    }
}

/// The concept pass over `nodes`.
pub open spec fn concept_run(nodes: Seq<NodeView>) -> ConceptState
    decreases nodes.len(),
{
    if nodes.len() == 0 {
        ConceptState { in_hwd: false, in_section: false, hwd: Seq::empty(), section: Seq::empty(), page: Seq::empty() }
    } else {
        concept_step(concept_run(nodes.drop_last()), nodes.last())
    }
}

/// One node of the section-definition pass: each definition becomes a
/// heading block.
pub open spec fn secdef_step(s: (bool, Seq<char>, Seq<BlockView>), n: NodeView) -> (bool, Seq<char>, Seq<BlockView>) {
    match n {
        NodeView::Open(t, _) => if t == "SECDEF"@ {
            (true, Seq::empty(), s.2)
        } else {
            s
        },
        NodeView::Close(t) => if t == "SECDEF"@ {
            (false, s.1, s.2.push(text_block(0, seq![(s.1, st_heading())])))
        } else {
            s
        },
        NodeView::Text(x) => if s.0 {
            (s.0, s.1 + x, s.2)
        } else {
            s
        },
    }
}

/// The section-definition pass over `nodes`.
pub open spec fn secdef_run(nodes: Seq<NodeView>) -> (bool, Seq<char>, Seq<BlockView>)
    decreases nodes.len(),
{
    if nodes.len() == 0 {
        (false, Seq::empty(), Seq::empty())
    } else {
        secdef_step(secdef_run(nodes.drop_last()), nodes.last())
    }
}

/// The activator page of the concept nodes `cv` and the section nodes
/// `sv`: the concept's blocks, the section's definition blocks, then the
/// section's entry blocks.
pub open spec fn activator_blocks(cv: Seq<NodeView>, sv: Seq<NodeView>) -> Seq<BlockView> {
    concept_run(cv).page + secdef_run(sv).2 + entry_blocks(sv)
}

/// The activator page of a concept and one of its sections: the concept's
/// headword and sections, the section's definitions, then the section read
/// as an entry.
pub fn activator_page(concept: &[XmlNode], section: &[XmlNode]) -> (r: ContentPage)
    ensures
        page_view(r@) == activator_blocks(nodes_view(concept@), nodes_view(section@)),
{
    let mut page: Vec<Block> = Vec::new();
    let ghost cv = nodes_view(concept@);
    let mut in_hwd = false;
    let mut in_section = false;
    let mut hwd = String::new();
    let mut sec = String::new();
    let mut i: usize = 0;
    assert(page_view(page@) =~= Seq::<BlockView>::empty());
    while i < concept.len()
        invariant
            i <= concept@.len(),
            cv == nodes_view(concept@),
            (ConceptState { in_hwd, in_section, hwd: hwd@, section: sec@, page: page_view(page@) })
                == concept_run(cv.take(i as int)),
        decreases concept@.len() - i,
    {
        let ghost p0 = page_view(page@);
        proof {
            assert(cv.take(i + 1).drop_last() =~= cv.take(i as int));
            assert(cv[i as int] == concept@[i as int]@);
        }
        match &concept[i] {
            XmlNode::Open { tag, .. } => {
                if str_equal(tag.as_str(), "HWD") {
                    in_hwd = true;
                    hwd = String::new();
                } else if str_equal(tag.as_str(), "Section") {
                    in_section = true;
                    sec = String::new();
                }
            },
            XmlNode::Close { tag } => {
                if str_equal(tag.as_str(), "HWD") {
                    in_hwd = false;
                    let b = block1(0, hwd.as_str(), style_heading());
                    page.push(b);
                    assert(page_view(page@) =~= p0.push(block_view(b)));
                } else if str_equal(tag.as_str(), "Section") {
                    in_section = false;
                    let b = block2(1, "\u{25B6} ", style_dim(), sec.as_str(), style_ref());
                    page.push(b);
                    assert(page_view(page@) =~= p0.push(block_view(b)));
                }
            },
            XmlNode::Text(t) => {
                if in_hwd {
                    hwd.append(t.as_str());
                }
                if in_section {
                    sec.append(t.as_str());
                }
            },
        }
        i = i + 1;
    }
    assert(cv.take(cv.len() as int) =~= cv);
    let ghost p1 = page_view(page@);
    let ghost sv = nodes_view(section@);
    let mut in_secdef = false;
    let mut secdef = String::new();
    let mut j: usize = 0;
    let mut defs: Vec<Block> = Vec::new();
    assert(page_view(defs@) =~= Seq::<BlockView>::empty());
    while j < section.len()
        invariant
            j <= section@.len(),
            sv == nodes_view(section@),
            (in_secdef, secdef@, page_view(defs@)) == secdef_run(sv.take(j as int)),
        decreases section@.len() - j,
    {
        let ghost d0 = page_view(defs@);
        proof {
            assert(sv.take(j + 1).drop_last() =~= sv.take(j as int));
            assert(sv[j as int] == section@[j as int]@);
        }
        match &section[j] {
            XmlNode::Open { tag, .. } => {
                if str_equal(tag.as_str(), "SECDEF") {
                    in_secdef = true;
                    secdef = String::new();
                }
            },
            XmlNode::Close { tag } => {
                if str_equal(tag.as_str(), "SECDEF") {
                    in_secdef = false;
                    let b = block1(0, secdef.as_str(), style_heading());
                    defs.push(b);
                    assert(page_view(defs@) =~= d0.push(block_view(b)));
                }
            },
            XmlNode::Text(t) => {
                if in_secdef {
                    secdef.append(t.as_str());
                }
            },
        }
        j = j + 1;
    }
    assert(sv.take(sv.len() as int) =~= sv);
    let mut rest = entry_page(section);
    let ghost d1 = page_view(defs@);
    let ghost e1 = page_view(rest@);
    page.append(&mut defs);
    assert(page_view(page@) =~= p1 + d1);
    page.append(&mut rest);
    assert(page_view(page@) =~= p1 + d1 + e1);
    page
}

/// The activator page of a concept and one of its sections (`_sid`, the
/// section's id, is not read).
pub fn transform_activator(concept_xml: &[u8], section_xml: &[u8], _sid: &str) -> (r: ContentPage)
    ensures
        page_view(r@) == activator_blocks(
            nodes_of_events(spec_xml_events(concept_xml@)),
            nodes_of_events(spec_xml_events(section_xml@)),
        ),
{
    let concept = parse_xml(concept_xml);
    let section = parse_xml(section_xml);
    let r = activator_page(concept.as_slice(), section.as_slice());
    assert(page_view(r@) == activator_blocks(nodes_view(concept@), nodes_view(section@)));
    r
}

/// The page of `nodes` read as content of type `ct`: entries, etymologies,
/// phrases and examples by their own passes, any other type as one block
/// of all its text.
pub open spec fn typed_blocks(ct: ContentType, nodes: Seq<NodeView>) -> Seq<BlockView> {
    match ct {
        ContentType::Entry => entry_blocks(nodes),
        ContentType::Etymologies => if text_block(0, all_texts(nodes)).inlines.len() > 0 {
            seq![text_block(0, all_texts(nodes))]
        } else {
            Seq::empty()
        },
        ContentType::Phrases => phrase_run(nodes).page,
        ContentType::Examples => exa_run(nodes).page,
        _ => seq![text_block(0, all_texts(nodes))],
    }
}

/// The page of `nodes` read as content of type `content_type`.
pub fn typed_page(content_type: ContentType, nodes: &[XmlNode]) -> (r: ContentPage)
    ensures
        page_view(r@) == typed_blocks(content_type, nodes_view(nodes@)),
{
    match content_type {
        ContentType::Entry => entry_page(nodes),
        ContentType::Etymologies => etymologies_page(nodes),
        ContentType::Phrases => phrases_page(nodes),
        ContentType::Examples => examples_page(nodes),
        _ => {
            let b = all_text_block(nodes);
            let page = vec![b];
            assert(page_view(page@) =~= seq![block_view(b)]);
            page
        },
    }
}

/// The page of `xml` read as content of type `content_type`.
pub fn transform(content_type: ContentType, xml: &[u8]) -> (r: ContentPage)
    ensures
        page_view(r@) == typed_blocks(content_type, nodes_of_events(spec_xml_events(xml@))),
{
    let nodes = parse_xml(xml);
    let r = typed_page(content_type, nodes.as_slice());
    assert(page_view(r@) == typed_blocks(content_type, nodes_view(nodes@)));
    r
}

} // verus!
