//! A parsed XML document as a list of nodes in document order, with the
//! queries that the index builder makes of it.

use vstd::prelude::*;

use roxmltree::NodeType;

verus! {

/// What a node of a parsed document is.
#[derive(Debug, Clone, Copy, PartialEq, Eq, Structural)]
pub enum DomKind {
    Element,
    Text,
    Other,
}

/// A node of a parsed document, in document order: its depth, how many
/// nodes its subtree holds (itself included), its kind, its local name,
/// its attributes (namespace, local name, value), its text (the text of
/// a text node, or the first child's text of an element) and the text
/// right after it (of an element).
pub struct DomNode {
    pub depth: usize,
    pub size: usize,
    pub kind: DomKind,
    pub name: String,
    pub attrs: Vec<(Option<String>, String, String)>,
    pub text: Option<String>,
    pub tail: Option<String>,
}

/// The plain value of a node.
pub struct DomView {
    pub depth: int,
    pub size: int,
    pub kind: DomKind,
    pub name: Seq<char>,
    pub attrs: Seq<(Option<Seq<char>>, Seq<char>, Seq<char>)>,
    pub text: Option<Seq<char>>,
    pub tail: Option<Seq<char>>,
}

/// The plain value of an optional string.
pub open spec fn opt_view(o: Option<String>) -> Option<Seq<char>> {
    match o {
        Some(s) => Some(s@),
        None => None,
    }
}

/// The plain values of attributes.
pub open spec fn dom_attrs_view(a: Seq<(Option<String>, String, String)>) -> Seq<(Option<Seq<char>>, Seq<char>, Seq<char>)> {
    a.map_values(|t: (Option<String>, String, String)| (opt_view(t.0), t.1@, t.2@))
}

/// The plain value of a node.
pub open spec fn node_view(n: DomNode) -> DomView {
    DomView {
        depth: n.depth as int,
        size: n.size as int,
        kind: n.kind,
        name: n.name@,
        attrs: dom_attrs_view(n.attrs@),
        text: opt_view(n.text),
        tail: opt_view(n.tail),
    }
}

/// The plain values of a list of nodes.
pub open spec fn dom_view(v: Seq<DomNode>) -> Seq<DomView> {
    v.map_values(|n: DomNode| node_view(n))
}

/// The nodes, in document order, of the root element of the XML text
/// `xml` as roxmltree reads it, or nothing when it does not parse.
pub uninterp spec fn spec_parse_dom(xml: Seq<char>) -> Option<Seq<DomView>>;

/// `roxmltree::Document::parse`, with the descendants of the root element
/// (itself first) read off node by node: ancestor count, descendant count,
/// kind, local name, attributes, `text()` and `tail()`. The contract names
/// the result; roxmltree's parser is not restated.
#[verifier::external_body]
pub(crate) fn parse_dom(xml: &str) -> (r: Option<Vec<DomNode>>)
    ensures
        match r {
            Some(v) => spec_parse_dom(xml@) == Some(dom_view(v@)),
            None => spec_parse_dom(xml@) is None,
        },
{
    let doc = roxmltree::Document::parse(xml).ok()?;
    Some(doc.root_element().descendants().map(|n| DomNode {
        depth: n.ancestors().count(),
        size: n.descendants().count(),
        kind: match n.node_type() { NodeType::Element => DomKind::Element, NodeType::Text => DomKind::Text, _ => DomKind::Other },
        name: n.tag_name().name().to_string(),
        attrs: n.attributes().map(|a| (a.namespace().map(String::from), a.name().to_string(), a.value().to_string())).collect(),
        text: n.text().map(String::from),
        tail: n.tail().map(String::from),
    }).collect())
}

/// The end of the subtree of node `i`: the position after its last
/// descendant.
pub open spec fn sub_end(d: Seq<DomView>, i: int) -> int {
    if i + d[i].size > d.len() {
        d.len() as int
    } else if d[i].size < 1 {
        i + 1
    } else {
        i + d[i].size
    }
}

/// The first element named `name` among the nodes `lo..hi`.
pub open spec fn find_from(d: Seq<DomView>, lo: int, hi: int, name: Seq<char>) -> Option<int>
    decreases hi - lo,
{
    if lo >= hi {
        None
    } else if d[lo].kind == DomKind::Element && d[lo].name == name {
        Some(lo)
    } else {
        find_from(d, lo + 1, hi, name)
    }
}

/// The first element named `name` in the subtree of node `i`, `i` itself
/// included.
pub open spec fn find_desc(d: Seq<DomView>, i: int, name: Seq<char>) -> Option<int> {
    find_from(d, i, sub_end(d, i), name)
}

/// The value of the attribute named `key` without a namespace, from
/// position `k` on.
pub open spec fn attr_scan(a: Seq<(Option<Seq<char>>, Seq<char>, Seq<char>)>, key: Seq<char>, k: int) -> Option<Seq<char>>
    decreases a.len() - k,
{
    if k < 0 || k >= a.len() {
        None
    } else if a[k].0 is None && a[k].1 == key {
        Some(a[k].2)
    } else {
        attr_scan(a, key, k + 1)
    }
}

/// The value of the attribute named `key` (without a namespace) of a node.
pub open spec fn node_attr(n: DomView, key: Seq<char>) -> Option<Seq<char>> {
    attr_scan(n.attrs, key, 0)
}

/// The `id` of the nearest node with one among the ancestors met going back
/// from position `k`, each shallower than `lim`; or nothing.
pub open spec fn id_up(d: Seq<DomView>, k: int, lim: int) -> Seq<char>
    decreases k + 1,
{
    if k < 0 || k >= d.len() {
        Seq::empty()
    } else if d[k].depth < lim {
        match node_attr(d[k], "id"@) {
            Some(v) => v,
            None => id_up(d, k - 1, d[k].depth),
        }
    } else {
        id_up(d, k - 1, lim)
    }
}

/// The `id` of node `j` or of its nearest ancestor that has one, or
/// nothing.
pub open spec fn nearest_id(d: Seq<DomView>, j: int) -> Seq<char> {
    match node_attr(d[j], "id"@) {
        Some(v) => v,
        None => id_up(d, j - 1, d[j].depth),
    }
}

} // verus!
