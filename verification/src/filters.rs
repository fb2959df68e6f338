//! The advanced-search filter tree: groups of checkable filters, each with
//! a code of the full-text index.

use vstd::prelude::*;

verus! {

/// A node of the filter tree: a label, the filter code of a leaf, its
/// children and whether it is checked.
#[derive(Debug)]
pub struct FilterNode {
    pub label: String,
    pub code: Option<String>,
    pub children: Vec<FilterNode>,
    pub checked: bool,
}

/// The filter expression of one code.
pub open spec fn filter_term(code: Seq<char>) -> Seq<char> {
    "asfilter:"@ + code
}

/// The filter expressions of the checked nodes with a code in the tree
/// under `n`, in depth-first order.
pub open spec fn node_filters(n: FilterNode) -> Seq<Seq<char>>
    decreases n, 0nat,
{
    let own = match n.code {
        Some(c) => if n.checked {
            seq![filter_term(c@)]
        } else {
            Seq::empty()
        },
        None => Seq::empty(),
    };
    own + nodes_filters(n.children@, n.children@.len() as int)
}

/// The filter expressions of the first `k` nodes of `ns`.
pub open spec fn nodes_filters(ns: Seq<FilterNode>, k: int) -> Seq<Seq<char>>
    decreases ns, 1nat, k,
{
    if k <= 0 || k > ns.len() {
        Seq::empty()
    } else {
        nodes_filters(ns, k - 1) + node_filters(ns[k - 1])
    }
}

impl FilterNode {
    /// A node with `label` and `code`, no children, unchecked.
    pub fn new(label: &str, code: Option<&str>) -> (r: FilterNode)
        ensures
            r.label@ == label@,
            r.code.is_some() == code.is_some(),
            code.is_some() ==> r.code.unwrap()@ == code.unwrap()@,
            r.children@.len() == 0,
            !r.checked,
    {
        let c = match code {
            Some(s) => Some(String::from_str(s)),
            None => None,
        };
        FilterNode { label: String::from_str(label), code: c, children: Vec::new(), checked: false }
    }

    /// This node with `children`.
    pub fn with_children(self, children: Vec<FilterNode>) -> (r: FilterNode)
        ensures
            r.label == self.label,
            r.code == self.code,
            r.checked == self.checked,
            r.children@ == children@,
    {
        FilterNode { label: self.label, code: self.code, children, checked: self.checked }
    }

    /// Appends to `out` the filter expression `asfilter:<code>` of every
    /// checked node with a code in this tree, in depth-first order.
    pub fn collect_filter(&self, out: &mut Vec<String>)
        ensures
            final(out)@.map_values(|s: String| s@) == old(out)@.map_values(|s: String| s@)
                + node_filters(*self),
        decreases *self, 0nat,
    {
        let ghost start = out@.map_values(|s: String| s@);
        match &self.code {
            Some(code) => {
                if self.checked {
                    let mut t = String::from_str("asfilter:");
                    t.append(code.as_str());
                    out.push(t);
                }
            },
            None => {},
        }
        let ghost own = out@.map_values(|s: String| s@);
        proof {
            assert(own =~= start + match self.code {
                Some(c) => if self.checked {
                    seq![filter_term(c@)]
                } else {
                    Seq::<Seq<char>>::empty()
                },
                None => Seq::<Seq<char>>::empty(),
            });
        }
        let mut i: usize = 0;
        while i < self.children.len()
            invariant
                i <= self.children@.len(),
                out@.map_values(|s: String| s@) == own + nodes_filters(self.children@, i as int),
            decreases self.children@.len() - i,
        {
            let ghost before = out@.map_values(|s: String| s@);
            assert(decreases_to!(*self => self.children@[i as int]));
            self.children[i].collect_filter(out);
            proof {
                assert(nodes_filters(self.children@, i + 1) == nodes_filters(self.children@, i as int)
                    + node_filters(self.children@[i as int]));
                assert(out@.map_values(|s: String| s@) =~= own + nodes_filters(self.children@, i + 1));
            }
            i = i + 1;
        }
        assert(out@.map_values(|s: String| s@) == start + node_filters(*self));
    }
}

/// The groups of the advanced-search filter tree, each as its label and
/// its leaves' labels and codes.
pub open spec fn filter_tree_data() -> Seq<(Seq<char>, Seq<(Seq<char>, Seq<char>)>)> {
    seq![
        ("Most frequent spoken words"@, seq![("1000"@, "233"@), ("2000"@, "234"@), ("3000"@, "235"@)]),
        ("Most frequent written words"@, seq![("1000"@, "236"@), ("2000"@, "237"@), ("3000"@, "238"@)]),
        ("Multimedia"@, seq![("Picture"@, "332"@), ("Sound effect"@, "333"@)]),
        ("Part of speech"@, seq![
            ("adjective"@, "334"@), ("adverb"@, "335"@), ("auxiliary verb"@, "336"@),
            ("conjunction"@, "337"@), ("determiner"@, "338"@), ("interjection"@, "339"@),
            ("modal verb"@, "340"@), ("noun"@, "341"@), ("number"@, "342"@),
            ("phrasal verb"@, "343"@), ("preposition"@, "346"@), ("verb"@, "349"@),
        ]),
        ("Register"@, seq![
            ("formal"@, "351"@), ("informal"@, "353"@), ("spoken"@, "360"@),
            ("written"@, "364"@), ("technical"@, "362"@), ("old-fashioned"@, "359"@),
        ]),
    ]
}

/// `nodes` are unchecked leaves with the labels and codes of `data`.
pub open spec fn leaves_match(nodes: Seq<FilterNode>, data: Seq<(Seq<char>, Seq<char>)>) -> bool {
    &&& nodes.len() == data.len()
    &&& forall|i: int| #![trigger nodes[i]] 0 <= i < nodes.len() ==> {
        &&& nodes[i].label@ == data[i].0
        &&& nodes[i].code matches Some(c) && c@ == data[i].1
        &&& nodes[i].children@.len() == 0
        &&& !nodes[i].checked
    }
}

/// `tree` is the advanced-search filter tree, all unchecked.
pub open spec fn is_filter_tree(tree: Seq<FilterNode>) -> bool {
    let data = filter_tree_data();
    &&& tree.len() == data.len()
    &&& forall|g: int| #![trigger tree[g]] 0 <= g < tree.len() ==> {
        &&& tree[g].label@ == data[g].0
        &&& tree[g].code is None
        &&& !tree[g].checked
        &&& leaves_match(tree[g].children@, data[g].1)
    }
}

/// A group of unchecked leaves built from `(label, code)` pairs.
fn leaves(data: &[(&str, &str)]) -> (r: Vec<FilterNode>)
    ensures
        leaves_match(r@, data@.map_values(|p: (&str, &str)| (p.0@, p.1@))),
{
    let mut r: Vec<FilterNode> = Vec::new();
    let mut i: usize = 0;
    while i < data.len()
        invariant
            i <= data@.len(),
            leaves_match(r@, data@.take(i as int).map_values(|p: (&str, &str)| (p.0@, p.1@))),
        decreases data@.len() - i,
    {
        let (label, code) = data[i];
        let node = FilterNode::new(label, Some(code));
        let ghost before = r@;
        r.push(node);
        i = i + 1;
        proof {
            let d = data@.take(i as int).map_values(|p: (&str, &str)| (p.0@, p.1@));
            assert forall|k: int| #![trigger r@[k]] 0 <= k < r@.len() implies {
                &&& r@[k].label@ == d[k].0
                &&& r@[k].code matches Some(c) && c@ == d[k].1
                &&& r@[k].children@.len() == 0
                &&& !r@[k].checked
            } by {
                if k < r@.len() - 1 {
                    assert(r@[k] == before[k]);
                    assert(d[k] == data@.take(k + 1).map_values(|p: (&str, &str)| (p.0@, p.1@))[k]);
                }
            }
        }
    }
    assert(data@.take(data@.len() as int) =~= data@);
    r
}

/// Builds the advanced-search filter tree, all unchecked.
pub fn build_filter_tree() -> (r: Vec<FilterNode>)
    ensures
        is_filter_tree(r@),
{
    let spoken = leaves(&[("1000", "233"), ("2000", "234"), ("3000", "235")]);
    let written = leaves(&[("1000", "236"), ("2000", "237"), ("3000", "238")]);
    let media = leaves(&[("Picture", "332"), ("Sound effect", "333")]);
    let pos = leaves(
        &[
            ("adjective", "334"),
            ("adverb", "335"),
            ("auxiliary verb", "336"),
            ("conjunction", "337"),
            ("determiner", "338"),
            ("interjection", "339"),
            ("modal verb", "340"),
            ("noun", "341"),
            ("number", "342"),
            ("phrasal verb", "343"),
            ("preposition", "346"),
            ("verb", "349"),
        ],
    );
    let register = leaves(
        &[
            ("formal", "351"),
            ("informal", "353"),
            ("spoken", "360"),
            ("written", "364"),
            ("technical", "362"),
            ("old-fashioned", "359"),
        ],
    );
    let mut tree: Vec<FilterNode> = Vec::new();
    tree.push(FilterNode::new("Most frequent spoken words", None).with_children(spoken));
    tree.push(FilterNode::new("Most frequent written words", None).with_children(written));
    tree.push(FilterNode::new("Multimedia", None).with_children(media));
    tree.push(FilterNode::new("Part of speech", None).with_children(pos));
    tree.push(FilterNode::new("Register", None).with_children(register));
    tree
}

} // verus!
