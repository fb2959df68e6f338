//! XML content as a flat list of nodes: opening tags with their
//! attributes, closing tags, and text, read with quick-xml.

use quick_xml::events::{BytesStart, Event};
use quick_xml::Reader;
use vstd::prelude::*;

verus! {

#[verifier::external_type_specification]
#[verifier::external_body]
#[verifier::reject_recursive_types(R)]
pub struct ExXmlReader<R>(Reader<R>);

#[verifier::external_type_specification]
#[verifier::external_body]
pub struct ExBytesStart<'a>(BytesStart<'a>);

/// One node of an XML document, in document order.
#[derive(Debug)]
pub enum XmlNode {
    Open { tag: String, attrs: Vec<(String, String)> },
    Close { tag: String },
    Text(String),
}

/// The plain value of an XML node.
pub enum NodeView {
    Open(Seq<char>, Seq<(Seq<char>, Seq<char>)>),
    Close(Seq<char>),
    Text(Seq<char>),
}

/// The plain values of attributes.
pub open spec fn attrs_view(a: Seq<(String, String)>) -> Seq<(Seq<char>, Seq<char>)> {
    a.map_values(|p: (String, String)| (p.0@, p.1@))
}

impl View for XmlNode {
    type V = NodeView;

    open spec fn view(&self) -> NodeView {
        match self {
            XmlNode::Open { tag, attrs } => NodeView::Open(tag@, attrs_view(attrs@)),
            XmlNode::Close { tag } => NodeView::Close(tag@),
            XmlNode::Text(t) => NodeView::Text(t@),
        }
    }
}

/// The plain values of a list of nodes.
pub open spec fn nodes_view(v: Seq<XmlNode>) -> Seq<NodeView> {
    v.map_values(|n: XmlNode| n@)
}

/// What holds of every list of nodes that [`parse_xml`] returns: it holds
/// no empty text.
pub open spec fn parsed_nodes(v: Seq<NodeView>) -> bool {
    forall|i: int| 0 <= i < v.len() ==> (#[trigger] v[i] is Text ==> v[i]->Text_0.len() > 0)
}

/// An event of quick-xml's reader, as plain values.
pub enum XmlEvent {
    Start(String, Vec<(String, String)>),
    End(String),
    Empty(String, Vec<(String, String)>),
    Text(String),
    Other,
}

/// The plain value of a reader event.
pub enum EventView {
    Start(Seq<char>, Seq<(Seq<char>, Seq<char>)>),
    End(Seq<char>),
    Empty(Seq<char>, Seq<(Seq<char>, Seq<char>)>),
    Text(Seq<char>),
    Other,
}

/// The plain value of a reader event.
pub open spec fn event_view(e: XmlEvent) -> EventView {
    match e {
        XmlEvent::Start(t, a) => EventView::Start(t@, attrs_view(a@)),
        XmlEvent::End(t) => EventView::End(t@),
        XmlEvent::Empty(t, a) => EventView::Empty(t@, attrs_view(a@)),
        XmlEvent::Text(t) => EventView::Text(t@),
        XmlEvent::Other => EventView::Other,
    }
}

/// The plain values of a list of reader events.
pub open spec fn events_view(v: Seq<XmlEvent>) -> Seq<EventView> {
    v.map_values(|e: XmlEvent| event_view(e))
}

/// The events that quick-xml's reader yields for the document `xml`, read
/// from its start with text kept untrimmed, up to the end of the input or
/// the first syntax error (neither of which is listed): start tags and
/// empty-element tags with their local names and attributes (local names,
/// unescaped values, an unescapable value read as empty), end tags with
/// their local names, unescaped text (text that cannot be unescaped read
/// as empty), and every other kind of event.
pub uninterp spec fn spec_xml_events(xml: Seq<u8>) -> Seq<EventView>;

/// The local name of a start tag and its attributes (local names, values
/// unescaped, an unescapable value read as empty), from quick-xml; a part
/// of [`xml_events`].
#[verifier::external_body]
fn start_parts(e: &BytesStart) -> (String, Vec<(String, String)>) {
    let tag = String::from_utf8_lossy(e.local_name().into_inner()).into_owned();
    let attrs = e.attributes().flatten().map(|a| (
        String::from_utf8_lossy(a.key.local_name().into_inner()).into_owned(),
        a.unescape_value().map(|v| v.into_owned()).unwrap_or_default(),
    )).collect();
    (tag, attrs)
}

/// One step of [`xml_events`]: `Reader::read_event_into`, its event as
/// plain values, and `None` at the end of the input or at a syntax error.
#[verifier::external_body]
fn read_xml_event(reader: &mut Reader<&[u8]>, buf: &mut Vec<u8>) -> Option<XmlEvent> {
    match reader.read_event_into(buf) {
        Ok(Event::Start(e)) => {
            let (t, a) = start_parts(&e);
            Some(XmlEvent::Start(t, a))
        },
        Ok(Event::End(e)) => Some(XmlEvent::End(String::from_utf8_lossy(e.local_name().into_inner()).into_owned())),
        Ok(Event::Empty(e)) => {
            let (t, a) = start_parts(&e);
            Some(XmlEvent::Empty(t, a))
        },
        Ok(Event::Text(e)) => Some(XmlEvent::Text(e.unescape().map(|t| t.into_owned()).unwrap_or_default())),
        Ok(Event::Eof) | Err(_) => None,
        Ok(_) => Some(XmlEvent::Other),
    }
}

/// `Reader::from_reader` over `xml` with text untrimmed, then
/// `Reader::read_event_into` until the end of the input or the first
/// syntax error: the events read, as plain values. The contract names the
/// event stream as a function of the bytes; quick-xml's parser is not
/// restated.
#[verifier::external_body]
fn xml_events(xml: &[u8]) -> (r: Vec<XmlEvent>)
    ensures
        events_view(r@) == spec_xml_events(xml@),
{
    let mut reader = Reader::from_reader(xml);
    reader.config_mut().trim_text(false);
    let mut buf = Vec::new();
    let mut events = Vec::new();
    while let Some(e) = read_xml_event(&mut reader, &mut buf) {
        events.push(e);
        buf.clear();
    }
    events
}

/// What a reader event adds to the node list: an opening node, a closing
/// node, both for an empty element, the text unless it is empty, and
/// nothing for other events.
pub open spec fn event_nodes(e: EventView) -> Seq<NodeView> {
    match e {
        EventView::Start(t, a) => seq![NodeView::Open(t, a)],
        EventView::End(t) => seq![NodeView::Close(t)],
        EventView::Empty(t, a) => seq![NodeView::Open(t, a), NodeView::Close(t)],
        EventView::Text(t) => if t.len() > 0 {
            seq![NodeView::Text(t)]
        } else {
            Seq::empty()
        },
        EventView::Other => Seq::empty(),
    }
}

/// The node list of the reader events `evs`.
pub open spec fn nodes_of_events(evs: Seq<EventView>) -> Seq<NodeView>
    decreases evs.len(),
{
    if evs.len() == 0 {
        Seq::empty()
    } else {
        nodes_of_events(evs.drop_last()) + event_nodes(evs.last())
    }
}

/// The node list of any events holds no empty text.
proof fn lemma_events_parsed(evs: Seq<EventView>)
    ensures
        parsed_nodes(nodes_of_events(evs)),
    decreases evs.len(),
{
    if evs.len() > 0 {
        lemma_events_parsed(evs.drop_last());
        let a = nodes_of_events(evs.drop_last());
        let b = event_nodes(evs.last());
        assert forall|i: int| 0 <= i < (a + b).len() implies (#[trigger] (a + b)[i] is Text ==> (a
            + b)[i]->Text_0.len() > 0) by {
            if i < a.len() {
                assert((a + b)[i] == a[i]);
            } else {
                assert((a + b)[i] == b[i - a.len()]);
            }
        }
    }
}

/// A copy of a list of attributes.
fn copy_attrs(a: &Vec<(String, String)>) -> (r: Vec<(String, String)>)
    ensures
        attrs_view(r@) == attrs_view(a@),
{
    let mut r: Vec<(String, String)> = Vec::new();
    let mut i: usize = 0;
    while i < a.len()
        invariant
            i <= a@.len(),
            attrs_view(r@) == attrs_view(a@.take(i as int)),
        decreases a@.len() - i,
    {
        let p = (a[i].0.clone(), a[i].1.clone());
        let ghost r0 = r@;
        r.push(p);
        i = i + 1;
        assert(a@.take(i as int) =~= a@.take(i - 1).push(a@[i - 1]));
        assert(r@ =~= r0.push(p));
        assert(attrs_view(r@) =~= attrs_view(r0).push((p.0@, p.1@)));
        assert(attrs_view(r@) =~= attrs_view(a@.take(i as int)));
    }
    assert(a@.take(a@.len() as int) =~= a@);
    r
}

/// Reads `xml` into a flat list of nodes: an empty element gives an
/// opening and a closing node, empty text gives none, other events give
/// none, and reading stops at the end or at the first syntax error.
pub fn parse_xml(xml: &[u8]) -> (r: Vec<XmlNode>)
    ensures
        nodes_view(r@) == nodes_of_events(spec_xml_events(xml@)),
        parsed_nodes(nodes_view(r@)),
{
    let events = xml_events(xml);
    let ghost ev = events_view(events@);
    let mut nodes: Vec<XmlNode> = Vec::new();
    let mut i: usize = 0;
    while i < events.len()
        invariant
            i <= events@.len(),
            ev == events_view(events@),
            nodes_view(nodes@) == nodes_of_events(ev.take(i as int)),
        decreases events@.len() - i,
    {
        let ghost before = nodes_view(nodes@);
        match &events[i] {
            XmlEvent::Start(tag, attrs) => {
                nodes.push(XmlNode::Open { tag: tag.clone(), attrs: copy_attrs(attrs) });
            },
            XmlEvent::End(tag) => {
                nodes.push(XmlNode::Close { tag: tag.clone() });
            },
            XmlEvent::Empty(tag, attrs) => {
                nodes.push(XmlNode::Open { tag: tag.clone(), attrs: copy_attrs(attrs) });
                nodes.push(XmlNode::Close { tag: tag.clone() });
            },
            XmlEvent::Text(t) => {
                if t.as_str().unicode_len() > 0 {
                    nodes.push(XmlNode::Text(t.clone()));
                }
            },
            XmlEvent::Other => {},
        }
        proof {
            assert(ev.take(i + 1).drop_last() =~= ev.take(i as int));
            assert(ev[i as int] == event_view(events@[i as int]));
            assert(nodes_view(nodes@) =~= before + event_nodes(ev[i as int]));
        }
        i = i + 1;
    }
    proof {
        assert(ev.take(ev.len() as int) =~= ev);
        lemma_events_parsed(ev);
    }
    nodes
}

} // verus!
