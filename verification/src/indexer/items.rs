//! The index items of a dictionary entry: its headword, inflections,
//! phrasal verbs, derivatives, phrases, collocations, definitions and
//! examples, each with a display label, a content path and the text that
//! is searched.

use vstd::prelude::*;

use std::collections::HashMap;

use crate::app::join_with;
use crate::indexer::dom::{
    DomKind, DomNode, DomView, attr_scan, dom_view, find_from, id_up, nearest_id, node_attr, node_view,
    opt_view, sub_end,
};
use crate::labels::{split_words, words_of};
use crate::indexer::dom::{parse_dom, spec_parse_dom};
use crate::text::{str_from_utf8, chars_of, push_char, spec_str_lowercase, spec_trim, str_lowercase, string_from_chars, trim_chars};

verus! {

/// The end of the subtree of node `i`.
fn sub_end_of(d: &[DomNode], i: usize) -> (r: usize)
    requires
        i < d@.len(),
    ensures
        r == sub_end(dom_view(d@), i as int),
        i < r <= d@.len(),
{
    let s = d[i].size;
    if s > d.len() - i {
        d.len()
    } else if s < 1 {
        i + 1
    } else {
        i + s
    }
}

/// The first element named `name` among the nodes `lo..hi`.
fn find_in(d: &[DomNode], lo: usize, hi: usize, name: &str) -> (r: Option<usize>)
    requires
        lo <= hi <= d@.len(),
    ensures
        match r {
            Some(k) => find_from(dom_view(d@), lo as int, hi as int, name@) == Some(k as int) && lo <= k < hi,
            None => find_from(dom_view(d@), lo as int, hi as int, name@) is None,
        },
{
    let ghost dv = dom_view(d@);
    let mut k = lo;
    while k < hi
        invariant
            lo <= k <= hi,
            hi <= d@.len(),
            dv == dom_view(d@),
            find_from(dv, lo as int, hi as int, name@) == find_from(dv, k as int, hi as int, name@),
        decreases hi - k,
    {
        assert(dv[k as int] == node_view(d@[k as int]));
        if d[k].kind == DomKind::Element && crate::history::str_equal(d[k].name.as_str(), name) {
            return Some(k);
        }
        k = k + 1;
    }
    None
}

/// The first element named `name` in the subtree of node `i`.
fn find_desc_of(d: &[DomNode], i: usize, name: &str) -> (r: Option<usize>)
    requires
        i < d@.len(),
    ensures
        match r {
            Some(k) => crate::indexer::dom::find_desc(dom_view(d@), i as int, name@) == Some(k as int) && k < d@.len(),
            None => crate::indexer::dom::find_desc(dom_view(d@), i as int, name@) is None,
        },
{
    let e = sub_end_of(d, i);
    find_in(d, i, e, name)
}

/// The value of the attribute named `key` (without a namespace) of `n`.
pub(crate) fn attr_of(n: &DomNode, key: &str) -> (r: Option<String>)
    ensures
        opt_view(r) == node_attr(node_view(*n), key@),
{
    let ghost a = node_view(*n).attrs;
    let mut k: usize = 0;
    while k < n.attrs.len()
        invariant
            k <= n.attrs@.len(),
            a == node_view(*n).attrs,
            attr_scan(a, key@, 0) == attr_scan(a, key@, k as int),
        decreases n.attrs@.len() - k,
    {
        let (ns, name, value) = &n.attrs[k];
        assert(a[k as int] == (opt_view(*ns), name@, value@));
        if ns.is_none() && crate::history::str_equal(name.as_str(), key) {
            return Some(value.clone());
        }
        k = k + 1;
    }
    None
}

/// The `id` of node `j` or of its nearest ancestor that has one, or the
/// empty string.
fn nearest_id_of(d: &[DomNode], j: usize) -> (r: String)
    requires
        j < d@.len(),
    ensures
        r@ == nearest_id(dom_view(d@), j as int),
{
    let ghost dv = dom_view(d@);
    assert(dv[j as int] == node_view(d@[j as int]));
    match attr_of(&d[j], "id") {
        Some(v) => v,
        None => {
            let mut lim = d[j].depth;
            let mut k = j;
            while k > 0
                invariant
                    k <= j < d@.len(),
                    dv == dom_view(d@),
                    node_attr(dv[j as int], "id"@) is None,
                    id_up(dv, j - 1, dv[j as int].depth) == id_up(dv, k - 1, lim as int),
                decreases k,
            {
                let p = k - 1;
                assert(dv[p as int] == node_view(d@[p as int]));
                if d[p].depth < lim {
                    match attr_of(&d[p], "id") {
                        Some(v) => {
                            assert(node_attr(dv[p as int], "id"@) == Some(v@));
                            assert(id_up(dv, p as int, lim as int) == v@);
                            return v;
                        },
                        None => {
                            lim = d[p].depth;
                        },
                    }
                }
                k = p;
            }
            String::new()
        },
    }
}

/// The positions of the dots of `s`.
pub open spec fn dot_positions(s: Seq<char>) -> Seq<int>
    decreases s.len(),
{
    if s.len() == 0 {
        Seq::empty()
    } else if s.last() == '.' {
        dot_positions(s.drop_last()).push(s.len() - 1)
    } else {
        dot_positions(s.drop_last())
    }
}

proof fn lemma_dot_positions_bound(s: Seq<char>)
    ensures
        forall|k: int| 0 <= k < dot_positions(s).len() ==> 0 <= #[trigger] dot_positions(s)[k] < s.len(),
    decreases s.len(),
{
    if s.len() > 0 {
        let t = s.drop_last();
        lemma_dot_positions_bound(t);
        assert forall|k: int| 0 <= k < dot_positions(s).len() implies 0 <= #[trigger] dot_positions(s)[k] < s.len() by {
            if k < dot_positions(t).len() {
                assert(dot_positions(t)[k] < t.len());
            }
        }
    }
}

/// A four-part dotted id shortened to its last two parts; any other id as
/// it is.
pub open spec fn shorten(id: Seq<char>) -> Seq<char> {
    let p = dot_positions(id);
    if p.len() == 3 {
        id.subrange(p[1] + 1, id.len() as int)
    } else {
        id
    }
}

/// `id` shortened to its last two parts when it has four dotted parts.
pub fn shorten_id(id: &str) -> (r: String)
    ensures
        r@ == shorten(id@),
{
    let cs = chars_of(id);
    let mut dots: Vec<usize> = Vec::new();
    let mut i: usize = 0;
    while i < cs.len()
        invariant
            i <= cs@.len(),
            cs@ == id@,
            dots@.len() == dot_positions(cs@.take(i as int)).len(),
            forall|k: int| 0 <= k < dots@.len() ==> dots@[k] as int == #[trigger] dot_positions(cs@.take(i as int))[k],
        decreases cs@.len() - i,
    {
        assert(cs@.take(i + 1).drop_last() =~= cs@.take(i as int));
        if cs[i] == '.' {
            dots.push(i);
        }
        i = i + 1;
    }
    assert(cs@.take(cs@.len() as int) =~= cs@);
    proof {
        lemma_dot_positions_bound(id@);
    }
    if dots.len() == 3 {
        assert(dots@[1] as int == dot_positions(id@)[1]);
        assert(dot_positions(id@)[1] < id@.len());
        let start = dots[1] + 1;
        String::from_str(id.substring_char(start, cs.len()))
    } else {
        String::from_str(id)
    }
}

/// `s` with its white-space runs collapsed into single spaces and no
/// space at either end.
pub open spec fn collapse(s: Seq<char>) -> Seq<char> {
    join_with(words_of(s), " "@)
}

/// The plain values of a list of strings.
pub open spec fn strs_view(v: Seq<String>) -> Seq<Seq<char>> {
    v.map_values(|s: String| s@)
}

/// `parts` joined with `sep` between them.
fn join_strs(parts: &Vec<String>, sep: &str) -> (r: String)
    ensures
        r@ == join_with(strs_view(parts@), sep@),
{
    let ghost pv = strs_view(parts@);
    let mut r = String::new();
    let mut k: usize = 0;
    while k < parts.len()
        invariant
            k <= parts@.len(),
            pv == strs_view(parts@),
            r@ == join_with(pv.take(k as int), sep@),
        decreases parts@.len() - k,
    {
        assert(pv.take(k + 1).drop_last() =~= pv.take(k as int));
        if k > 0 {
            r.append(sep);
        } else {
            assert(pv.take(1) =~= seq![pv[0]]);
        }
        r.append(parts[k].as_str());
        k = k + 1;
    }
    assert(pv.take(pv.len() as int) =~= pv);
    r
}

/// `s` with white space collapsed.
pub fn collapse_space(s: &str) -> (r: String)
    ensures
        r@ == collapse(s@),
{
    let cs = chars_of(s);
    let ws = split_words(cs.as_slice());
    let ghost wv = ws@.map_values(|w: Vec<char>| w@);
    let mut words: Vec<String> = Vec::new();
    let mut k: usize = 0;
    while k < ws.len()
        invariant
            k <= ws@.len(),
            wv == ws@.map_values(|w: Vec<char>| w@),
            strs_view(words@) =~= wv.take(k as int),
        decreases ws@.len() - k,
    {
        let w = string_from_chars(ws[k].as_slice());
        let ghost before = strs_view(words@);
        words.push(w);
        assert(strs_view(words@) =~= before.push(w@));
        assert(wv.take(k + 1) =~= wv.take(k as int).push(wv[k as int]));
        k = k + 1;
    }
    assert(wv.take(wv.len() as int) =~= wv);
    join_strs(&words, " ")
}

/// `out` with the trimmed `t` added, after a space, when it is not blank.
pub open spec fn push_piece(out: Seq<char>, t: Seq<char>) -> Seq<char> {
    let tt = spec_trim(t);
    if tt.len() == 0 {
        out
    } else if out.len() == 0 {
        tt
    } else {
        out + " "@ + tt
    }
}

/// Appends the trimmed `t`, after a space, when it is not blank.
fn push_trimmed(out: &mut String, t: &str)
    ensures
        final(out)@ == push_piece(old(out)@, t@),
{
    let tc = chars_of(t);
    let tt = trim_chars(tc.as_slice());
    if tt.len() == 0 {
        return;
    }
    if out.as_str().unicode_len() > 0 {
        out.append(" ");
    }
    let ts = string_from_chars(tt.as_slice());
    out.append(ts.as_str());
}

/// The text of an optional string, or nothing.
pub open spec fn or_empty(o: Option<Seq<char>>) -> Seq<char> {
    match o {
        Some(t) => t,
        None => Seq::empty(),
    }
}

/// Elements whose text is left out of collected text.
pub open spec fn is_excluded(name: Seq<char>) -> bool {
    let l = spec_str_lowercase(name);
    l == "span"@ || l == "object"@ || l == "gloss"@
}

/// The texts of the nodes `i..k` (an element's first text, a text node's
/// text), trimmed and joined with spaces, leaving out the subtrees of
/// excluded elements; with the position up to which nodes are skipped.
pub open spec fn text_scan(d: Seq<DomView>, i: int, k: int) -> (Seq<char>, int)
    decreases k - i,
{
    if k <= i {
        (Seq::empty(), i)
    } else {
        let (out, skip) = text_scan(d, i, k - 1);
        let j = k - 1;
        if j < skip {
            (out, skip)
        } else if d[j].kind == DomKind::Element {
            if is_excluded(d[j].name) {
                (out, sub_end(d, j))
            } else {
                (push_piece(out, or_empty(d[j].text)), skip)
            }
        } else if d[j].kind == DomKind::Text {
            (push_piece(out, or_empty(d[j].text)), skip)
        } else {
            (out, skip)
        }
    }
}

/// The text of the subtree of node `i`, white space collapsed.
pub open spec fn collected_text(d: Seq<DomView>, i: int) -> Seq<char> {
    collapse(text_scan(d, i, sub_end(d, i)).0)
}

/// Whether `name`, lower-cased, is one of the excluded elements.
fn excluded(name: &str) -> (r: bool)
    ensures
        r == is_excluded(name@),
{
    let l = str_lowercase(name);
    crate::history::str_equal(l.as_str(), "span") || crate::history::str_equal(l.as_str(), "object")
        || crate::history::str_equal(l.as_str(), "gloss")
}

/// The text of the subtree of node `i`, white space collapsed.
pub fn collect_text(d: &[DomNode], i: usize) -> (r: String)
    requires
        i < d@.len(),
    ensures
        r@ == collected_text(dom_view(d@), i as int),
{
    let ghost dv = dom_view(d@);
    let end = sub_end_of(d, i);
    let mut out = String::new();
    let mut skip = i;
    let mut k = i;
    while k < end
        invariant
            i <= k <= end <= d@.len(),
            dv == dom_view(d@),
            end == sub_end(dv, i as int),
            (out@, skip as int) == text_scan(dv, i as int, k as int),
        decreases end - k,
    {
        assert(dv[k as int] == node_view(d@[k as int]));
        if k >= skip {
            if d[k].kind == DomKind::Element {
                if excluded(d[k].name.as_str()) {
                    skip = sub_end_of(d, k);
                } else {
                    match &d[k].text {
                        Some(t) => push_trimmed(&mut out, t.as_str()),
                        None => {
                            assert(push_piece(out@, Seq::empty()) == out@) by {
                                assert(spec_trim(Seq::<char>::empty()) =~= Seq::<char>::empty());
                            }
                        },
                    }
                }
            } else if d[k].kind == DomKind::Text {
                match &d[k].text {
                    Some(t) => push_trimmed(&mut out, t.as_str()),
                    None => {
                        assert(push_piece(out@, Seq::empty()) == out@) by {
                            assert(spec_trim(Seq::<char>::empty()) =~= Seq::<char>::empty());
                        }
                    },
                }
            }
        }
        k = k + 1;
    }
    collapse_space(out.as_str())
}

/// One index item: its type code, display label, content path, searched
/// text, sort key, filter codes and priority.
#[derive(Debug, Clone)]
pub struct Item {
    pub itemtype: String,
    pub label: String,
    pub path: String,
    pub content: String,
    pub sortkey: String,
    pub asfilter: String,
    pub prio: u8,
}

/// The plain value of an index item.
pub struct ItemView {
    pub itemtype: Seq<char>,
    pub label: Seq<char>,
    pub path: Seq<char>,
    pub content: Seq<char>,
    pub sortkey: Seq<char>,
    pub asfilter: Seq<char>,
    pub prio: u8,
}

/// The plain value of an index item.
pub open spec fn item_view(i: Item) -> ItemView {
    ItemView {
        itemtype: i.itemtype@,
        label: i.label@,
        path: i.path@,
        content: i.content@,
        sortkey: i.sortkey@,
        asfilter: i.asfilter@,
        prio: i.prio,
    }
}

/// The plain values of a list of items.
pub open spec fn items_view(v: Seq<Item>) -> Seq<ItemView> {
    v.map_values(|i: Item| item_view(i))
}

/// An item without filter codes.
pub open spec fn item(t: Seq<char>, label: Seq<char>, path: Seq<char>, content: Seq<char>, sortkey: Seq<char>, prio: u8) -> ItemView {
    ItemView { itemtype: t, label, path, content, sortkey, asfilter: Seq::empty(), prio }
}

/// An item without filter codes.
fn make_item(t: &str, label: String, path: String, content: String, sortkey: String, prio: u8) -> (r: Item)
    ensures
        item_view(r) == item(t@, label@, path@, content@, sortkey@, prio),
{
    Item { itemtype: String::from_str(t), label, path, content, sortkey, asfilter: String::new(), prio }
}

/// What `f` gives for the positions `lo..hi`, in order, concatenated.
pub open spec fn gather<A>(lo: int, hi: int, f: spec_fn(int) -> Seq<A>) -> Seq<A>
    decreases hi - lo,
{
    if lo >= hi {
        Seq::empty()
    } else {
        gather(lo, hi - 1, f) + f(hi - 1)
    }
}

/// The first child of node `h` among `lo..hi` that is an element named `name`.
pub open spec fn child_from(d: Seq<DomView>, h: int, lo: int, hi: int, name: Seq<char>) -> Option<int>
    decreases hi - lo,
{
    if lo >= hi {
        None
    } else if d[lo].depth == d[h].depth + 1 && d[lo].kind == DomKind::Element && d[lo].name == name {
        Some(lo)
    } else {
        child_from(d, h, lo + 1, hi, name)
    }
}

/// The first child of node `h` that is an element named `name`.
pub open spec fn first_child(d: Seq<DomView>, h: int, name: Seq<char>) -> Option<int> {
    child_from(d, h, h + 1, sub_end(d, h), name)
}

/// The text of node `k` as a list: one piece when it is a child of `h`
/// that is an element named `name` with a text, none otherwise.
pub open spec fn child_text_at(d: Seq<DomView>, h: int, name: Seq<char>, k: int) -> Seq<Seq<char>> {
    if d[k].depth == d[h].depth + 1 && d[k].kind == DomKind::Element && d[k].name == name && d[k].text is Some {
        seq![d[k].text->Some_0]
    } else {
        Seq::empty()
    }
}

/// The texts of the children of node `h` that are elements named `name`.
pub open spec fn child_texts(d: Seq<DomView>, h: int, name: Seq<char>) -> Seq<Seq<char>> {
    gather(h + 1, sub_end(d, h), |k: int| child_text_at(d, h, name, k))
}

/// The text of node `k` as a list: one piece when it is an element named
/// `name` with a text, none otherwise.
pub open spec fn desc_text_at(d: Seq<DomView>, name: Seq<char>, k: int) -> Seq<Seq<char>> {
    if d[k].kind == DomKind::Element && d[k].name == name && d[k].text is Some {
        seq![d[k].text->Some_0]
    } else {
        Seq::empty()
    }
}

/// The texts of the elements named `name` in the subtree of node `j`.
pub open spec fn desc_texts(d: Seq<DomView>, j: int, name: Seq<char>) -> Seq<Seq<char>> {
    gather(j, sub_end(d, j), |k: int| desc_text_at(d, name, k))
}

/// What the labels and paths of an entry's items are made from: the
/// headword, the headword label (with homograph number and parts of
/// speech), its form inside `<h>`, and the entry's short id and path.
pub struct EntryCtx {
    pub hwd_base: Seq<char>,
    pub hwdlabel: Seq<char>,
    pub hwd_label: Seq<char>,
    pub root_short: Seq<char>,
    pub path_root: Seq<char>,
}

/// The `Head` element of the entry.
pub open spec fn entry_head(d: Seq<DomView>) -> Option<int> {
    crate::indexer::dom::find_desc(d, 0, "Head"@)
}

/// The headword: the text of `Head`'s `HWD`'s `BASE`.
pub open spec fn hwd_base_of(d: Seq<DomView>) -> Seq<char> {
    match entry_head(d) {
        Some(h) => match crate::indexer::dom::find_desc(d, h, "HWD"@) {
            Some(w) => match crate::indexer::dom::find_desc(d, w, "BASE"@) {
                Some(b) => collected_text(d, b),
                None => Seq::empty(),
            },
            None => Seq::empty(),
        },
        None => Seq::empty(),
    }
}

/// The homograph number of the headword, marked, or nothing.
pub open spec fn homnum_mark(d: Seq<DomView>) -> Seq<char> {
    match entry_head(d) {
        Some(h) => match crate::indexer::dom::find_desc(d, h, "HOMNUM"@) {
            Some(m) => if collected_text(d, m).len() > 0 {
                "<s>"@ + collected_text(d, m) + "</s>"@
            } else {
                Seq::empty()
            },
            None => Seq::empty(),
        },
        None => Seq::empty(),
    }
}

/// The parts of speech of the headword, marked, or nothing.
pub open spec fn pos_mark(d: Seq<DomView>) -> Seq<char> {
    match entry_head(d) {
        Some(h) => if child_texts(d, h, "POS"@).len() > 0 {
            " <p>"@ + join_with(child_texts(d, h, "POS"@), ", "@) + "</p>"@
        } else {
            Seq::empty()
        },
        None => Seq::empty(),
    }
}

/// The headword label: the headword and homograph number, marked as
/// frequent or not, then the parts of speech.
pub open spec fn hwdlabel_of(d: Seq<DomView>) -> Seq<char> {
    let base = hwd_base_of(d) + homnum_mark(d);
    let frequent = match entry_head(d) {
        Some(h) => crate::indexer::dom::find_desc(d, h, "FREQ"@) is Some,
        None => false,
    };
    (if frequent {
        "<f>"@ + base + "</f>"@
    } else {
        "<n>"@ + base + "</n>"@
    }) + pos_mark(d)
}

/// The context of the entry read into `d`.
pub open spec fn entry_ctx(d: Seq<DomView>) -> EntryCtx {
    let short = shorten(or_empty(node_attr(d[0], "id"@)));
    EntryCtx {
        hwd_base: hwd_base_of(d),
        hwdlabel: hwdlabel_of(d),
        hwd_label: "<h>"@ + hwdlabel_of(d) + "</h>"@,
        root_short: short,
        path_root: "/fs/"@ + short,
    }
}

/// The path of node `j`: the entry's path, with the short form of the
/// nearest id as anchor when there is one.
pub open spec fn elem_path(d: Seq<DomView>, c: EntryCtx, j: int) -> Seq<char> {
    let pid = nearest_id(d, j);
    if pid.len() == 0 {
        c.path_root
    } else {
        "/fs/"@ + c.root_short + "#"@ + shorten(pid)
    }
}

/// The strings an entry's items are made from.
struct Ctx {
    hwd_base: String,
    hwdlabel: String,
    hwd_label: String,
    root_short: String,
    path_root: String,
}

impl Ctx {
    spec fn view(&self) -> EntryCtx {
        EntryCtx {
            hwd_base: self.hwd_base@,
            hwdlabel: self.hwdlabel@,
            hwd_label: self.hwd_label@,
            root_short: self.root_short@,
            path_root: self.path_root@,
        }
    }
}

/// `a` then `b` then `c`.
fn cat3(a: &str, b: &str, c: &str) -> (r: String)
    ensures
        r@ == a@ + b@ + c@,
{
    let mut r = String::from_str(a);
    r.append(b);
    r.append(c);
    r
}

/// The first child of node `h` that is an element named `name`.
fn first_child_of(d: &[DomNode], h: usize, name: &str) -> (r: Option<usize>)
    requires
        h < d@.len(),
    ensures
        match r {
            Some(k) => first_child(dom_view(d@), h as int, name@) == Some(k as int) && k < d@.len(),
            None => first_child(dom_view(d@), h as int, name@) is None,
        },
{
    let ghost dv = dom_view(d@);
    let e = sub_end_of(d, h);
    let mut k = h + 1;
    assert(dv[h as int] == node_view(d@[h as int]));
    while k < e
        invariant
            h < k <= e <= d@.len(),
            dv == dom_view(d@),
            dv[h as int] == node_view(d@[h as int]),
            first_child(dv, h as int, name@) == child_from(dv, h as int, k as int, e as int, name@),
            e == sub_end(dv, h as int),
        decreases e - k,
    {
        assert(dv[k as int] == node_view(d@[k as int]));
        if d[h].depth < usize::MAX && d[k].depth == d[h].depth + 1 && d[k].kind == DomKind::Element
            && crate::history::str_equal(d[k].name.as_str(), name) {
            return Some(k);
        }
        k = k + 1;
    }
    None
}

/// The texts of the children of node `h` that are elements named `name`.
fn child_texts_of(d: &[DomNode], h: usize, name: &str) -> (r: Vec<String>)
    requires
        h < d@.len(),
    ensures
        strs_view(r@) == child_texts(dom_view(d@), h as int, name@),
{
    let ghost dv = dom_view(d@);
    let e = sub_end_of(d, h);
    let ghost f = |k: int| child_text_at(dv, h as int, name@, k);
    let mut r: Vec<String> = Vec::new();
    let mut k = h + 1;
    assert(dv[h as int] == node_view(d@[h as int]));
    while k < e
        invariant
            h < k <= e <= d@.len(),
            dv == dom_view(d@),
            dv[h as int] == node_view(d@[h as int]),
            f == (|k: int| child_text_at(dv, h as int, name@, k)),
            strs_view(r@) == gather(h + 1, k as int, f),
        decreases e - k,
    {
        assert(dv[k as int] == node_view(d@[k as int]));
        let ghost before = strs_view(r@);
        if d[h].depth < usize::MAX && d[k].depth == d[h].depth + 1 && d[k].kind == DomKind::Element
            && crate::history::str_equal(d[k].name.as_str(), name) {
            match &d[k].text {
                Some(t) => {
                    r.push(t.clone());
                    assert(strs_view(r@) =~= before + f(k as int));
                },
                None => {
                    assert(strs_view(r@) =~= before + f(k as int));
                },
            }
        } else {
            assert(strs_view(r@) =~= before + f(k as int));
        }
        k = k + 1;
    }
    r
}

/// The texts of the elements named `name` in the subtree of node `j`.
fn desc_texts_of(d: &[DomNode], j: usize, name: &str) -> (r: Vec<String>)
    requires
        j < d@.len(),
    ensures
        strs_view(r@) == desc_texts(dom_view(d@), j as int, name@),
{
    let ghost dv = dom_view(d@);
    let e = sub_end_of(d, j);
    let ghost f = |k: int| desc_text_at(dv, name@, k);
    let mut r: Vec<String> = Vec::new();
    let mut k = j;
    while k < e
        invariant
            j <= k <= e <= d@.len(),
            dv == dom_view(d@),
            f == (|k: int| desc_text_at(dv, name@, k)),
            strs_view(r@) == gather(j as int, k as int, f),
        decreases e - k,
    {
        assert(dv[k as int] == node_view(d@[k as int]));
        let ghost before = strs_view(r@);
        if d[k].kind == DomKind::Element && crate::history::str_equal(d[k].name.as_str(), name) {
            match &d[k].text {
                Some(t) => {
                    r.push(t.clone());
                    assert(strs_view(r@) =~= before + f(k as int));
                },
                None => {
                    assert(strs_view(r@) =~= before + f(k as int));
                },
            }
        } else {
            assert(strs_view(r@) =~= before + f(k as int));
        }
        k = k + 1;
    }
    r
}

/// The context of the entry read into `d`.
fn make_ctx(d: &[DomNode]) -> (r: Ctx)
    requires
        d@.len() > 0,
    ensures
        r.view() == entry_ctx(dom_view(d@)),
{
    let ghost dv = dom_view(d@);
    let head = find_desc_of(d, 0, "Head");
    let mut hwd_base = String::new();
    let mut homnum = String::new();
    let mut frequent = false;
    let mut pos = String::new();
    match head {
        Some(h) => {
            match find_desc_of(d, h, "HWD") {
                Some(w) => match find_desc_of(d, w, "BASE") {
                    Some(b) => {
                        hwd_base = collect_text(d, b);
                    },
                    None => {},
                },
                None => {},
            }
            match find_desc_of(d, h, "HOMNUM") {
                Some(m) => {
                    let hom = collect_text(d, m);
                    if hom.as_str().unicode_len() > 0 {
                        homnum = cat3("<s>", hom.as_str(), "</s>");
                    }
                },
                None => {},
            }
            frequent = find_desc_of(d, h, "FREQ").is_some();
            let ps = child_texts_of(d, h, "POS");
            if ps.len() > 0 {
                let j = join_strs(&ps, ", ");
                pos = cat3(" <p>", j.as_str(), "</p>");
            }
        },
        None => {},
    }
    assert(hwd_base@ == hwd_base_of(dv));
    assert(homnum@ == homnum_mark(dv));
    assert(pos@ == pos_mark(dv));
    let mut base = hwd_base.clone();
    base.append(homnum.as_str());
    let mut hwdlabel = if frequent {
        cat3("<f>", base.as_str(), "</f>")
    } else {
        cat3("<n>", base.as_str(), "</n>")
    };
    hwdlabel.append(pos.as_str());
    assert(hwdlabel@ == hwdlabel_of(dv));
    let hwd_label = cat3("<h>", hwdlabel.as_str(), "</h>");
    assert(dv[0] == node_view(d@[0]));
    let id = match attr_of(&d[0], "id") {
        Some(v) => v,
        None => String::new(),
    };
    let root_short = shorten_id(id.as_str());
    let mut path_root = String::from_str("/fs/");
    path_root.append(root_short.as_str());
    Ctx { hwd_base, hwdlabel, hwd_label, root_short, path_root }
}

/// The path of node `j`.
fn path_of(d: &[DomNode], c: &Ctx, j: usize) -> (r: String)
    requires
        j < d@.len(),
    ensures
        r@ == elem_path(dom_view(d@), c.view(), j as int),
{
    let pid = nearest_id_of(d, j);
    if pid.as_str().unicode_len() == 0 {
        c.path_root.clone()
    } else {
        let short = shorten_id(pid.as_str());
        let mut r = cat3("/fs/", c.root_short.as_str(), "#");
        r.append(short.as_str());
        r
    }
}

/// Whether node `k` is an element named `name`.
fn is_elem(d: &[DomNode], k: usize, name: &str) -> (r: bool)
    requires
        k < d@.len(),
    ensures
        r == (dom_view(d@)[k as int].kind == DomKind::Element && dom_view(d@)[k as int].name == name@),
{
    assert(dom_view(d@)[k as int] == node_view(d@[k as int]));
    d[k].kind == DomKind::Element && crate::history::str_equal(d[k].name.as_str(), name)
}

/// Whether node `k` has an `id`.
fn has_id(d: &[DomNode], k: usize) -> (r: bool)
    requires
        k < d@.len(),
    ensures
        r == (node_attr(dom_view(d@)[k as int], "id"@) is Some),
{
    assert(dom_view(d@)[k as int] == node_view(d@[k as int]));
    attr_of(&d[k], "id").is_some()
}

/// The inflection item of node `j`, an `INFLX` under the headword.
pub open spec fn hv_at(d: Seq<DomView>, c: EntryCtx, j: int) -> Seq<ItemView> {
    if d[j].kind == DomKind::Element && d[j].name == "INFLX"@ {
        let plain = collected_text(d, j);
        if plain.len() == 0 || plain == c.hwd_base {
            Seq::empty()
        } else {
            seq![item("hv"@, "<h><v>"@ + plain + "</v> &rarr; "@ + c.hwdlabel + "</h>"@, c.path_root, plain, plain, 2)]
        }
    } else {
        Seq::empty()
    }
}

/// The inflection items: each `INFLX` under the `HWD` child of `Head`.
pub open spec fn hv_items(d: Seq<DomView>, c: EntryCtx) -> Seq<ItemView> {
    match entry_head(d) {
        Some(h) => match first_child(d, h, "HWD"@) {
            Some(w) => gather(w, sub_end(d, w), |j: int| hv_at(d, c, j)),
            None => Seq::empty(),
        },
        None => Seq::empty(),
    }
}

/// The phrasal-verb item of node `j`, a `PhrVbEntry`.
pub open spec fn hp_at(d: Seq<DomView>, c: EntryCtx, j: int) -> Seq<ItemView> {
    if d[j].kind == DomKind::Element && d[j].name == "PhrVbEntry"@ {
        match crate::indexer::dom::find_desc(d, j, "PHRVBHWD"@) {
            Some(q) => {
                let plain = collected_text(d, q);
                if plain.len() == 0 {
                    Seq::empty()
                } else {
                    seq![item("hp"@, "<h><pv>"@ + plain + "</pv> <p>phrasal verb</p></h>"@, elem_path(d, c, j), plain, plain, 1)]
                }
            },
            None => Seq::empty(),
        }
    } else {
        Seq::empty()
    }
}

/// `s` without stress marks.
pub open spec fn unstressed(s: Seq<char>) -> Seq<char>
    decreases s.len(),
{
    if s.len() == 0 {
        s
    } else if s.last() == '\u{02C8}' || s.last() == '\u{02CC}' {
        unstressed(s.drop_last())
    } else {
        unstressed(s.drop_last()).push(s.last())
    }
}

/// The derivative item of node `j`, a `RunOn`: the `BASE` of its `DERIV`,
/// without stress marks, with the parts of speech of the run-on.
pub open spec fn runon_at(d: Seq<DomView>, c: EntryCtx, j: int) -> Seq<ItemView> {
    if d[j].kind == DomKind::Element && d[j].name == "RunOn"@ {
        match crate::indexer::dom::find_desc(d, j, "DERIV"@) {
            Some(v) => match crate::indexer::dom::find_desc(d, v, "BASE"@) {
                Some(b) => {
                    let plain = unstressed(collected_text(d, b));
                    if plain.len() == 0 {
                        Seq::empty()
                    } else {
                        let pos = join_with(desc_texts(d, j, "POS"@), ", "@);
                        let label = if pos.len() == 0 {
                            "<h><n>"@ + plain + "</n></h>"@
                        } else {
                            "<h><n>"@ + plain + "</n> <p>"@ + pos + "</p></h>"@
                        };
                        seq![item("hm"@, label, elem_path(d, c, v), plain, plain, 1)]
                    }
                },
                None => Seq::empty(),
            },
            None => Seq::empty(),
        }
    } else {
        Seq::empty()
    }
}

/// The phrase item of node `j`, a `LEXUNIT` with an id.
pub open spec fn lexunit_at(d: Seq<DomView>, c: EntryCtx, j: int) -> Seq<ItemView> {
    if d[j].kind == DomKind::Element && d[j].name == "LEXUNIT"@ && node_attr(d[j], "id"@) is Some {
        let plain = collected_text(d, j);
        if plain.len() == 0 {
            Seq::empty()
        } else {
            seq![item("pl"@, "<l><o>"@ + plain + "</o> ("@ + c.hwdlabel + ")</l>"@, elem_path(d, c, j), plain, plain, 9)]
        }
    } else {
        Seq::empty()
    }
}

/// The phrase item of node `j`, an element named `tag` with an id, its
/// text without a leading article when `drop_article` holds.
pub open spec fn phrase_at(d: Seq<DomView>, c: EntryCtx, j: int, tag: Seq<char>, drop_article: bool) -> Seq<ItemView> {
    if d[j].kind == DomKind::Element && d[j].name == tag && node_attr(d[j], "id"@) is Some {
        let plain = if drop_article {
            without_article(collected_text(d, j))
        } else {
            collected_text(d, j)
        };
        if plain.len() == 0 {
            Seq::empty()
        } else {
            seq![item("p"@, "<c><o>"@ + plain + "</o> ("@ + c.hwdlabel + ")</c>"@, elem_path(d, c, j), plain, plain, 10)]
        }
    } else {
        Seq::empty()
    }
}

/// `s` without a leading "a " or "an ".
pub open spec fn without_article(s: Seq<char>) -> Seq<char> {
    if s.len() >= 2 && s.take(2) == "a "@ {
        s.skip(2)
    } else if s.len() >= 3 && s.take(3) == "an "@ {
        s.skip(3)
    } else {
        s
    }
}

/// The pieces of text of a `BASE` element `b`: its first text, then for
/// each child the child's text (of every child, or only of `COLLOINEXA`
/// children) and the text after it.
pub open spec fn base_parts(d: Seq<DomView>, b: int, only_colloinexa: bool) -> Seq<Seq<char>> {
    (match d[b].text {
        Some(t) => seq![t],
        None => Seq::empty(),
    }) + gather(b + 1, sub_end(d, b), |k: int| child_part_at(d, b, k, only_colloinexa))
}

/// The pieces that child `k` of `b` adds to the text of `b`.
pub open spec fn child_part_at(d: Seq<DomView>, b: int, k: int, only_colloinexa: bool) -> Seq<Seq<char>> {
    if d[k].depth == d[b].depth + 1 {
        (if !only_colloinexa || d[k].name == "COLLOINEXA"@ {
            seq![collected_text(d, k)]
        } else {
            Seq::empty()
        }) + match d[k].tail {
            Some(t) => seq![t],
            None => Seq::empty(),
        }
    } else {
        Seq::empty()
    }
}

/// The text of a child `k` of a `Collocate` `j` that names the
/// collocation, as a list.
pub open spec fn colloc_text_at(d: Seq<DomView>, j: int, k: int) -> Seq<Seq<char>> {
    if d[k].depth == d[j].depth + 1 && d[k].kind == DomKind::Element && (d[k].name == "COLLOC"@
        || d[k].name == "LEXVAR"@ || d[k].name == "ORTHVAR"@) && collected_text(d, k).len() > 0 {
        seq![collected_text(d, k)]
    } else {
        Seq::empty()
    }
}

/// The names of the collocation of a `Collocate` `j`.
pub open spec fn colloc_texts(d: Seq<DomView>, j: int) -> Seq<Seq<char>> {
    gather(j + 1, sub_end(d, j), |k: int| colloc_text_at(d, j, k))
}

/// The example item of node `k`, a `ColloExa` of the `Collocate` `j`
/// titled `title`.
pub open spec fn collexa_at(d: Seq<DomView>, c: EntryCtx, j: int, title: Seq<char>, k: int) -> Seq<ItemView> {
    if d[k].kind == DomKind::Element && d[k].name == "ColloExa"@ {
        match crate::indexer::dom::find_desc(d, k, "BASE"@) {
            Some(b) => {
                let t = collapse(join_with(base_parts(d, b, true), " "@));
                if t.len() == 0 {
                    Seq::empty()
                } else {
                    seq![item("e"@, c.hwd_label + " &mdash; <b>"@ + title + "</b>"@, elem_path(d, c, j), t, c.hwd_base, 20)]
                }
            },
            None => Seq::empty(),
        }
    } else {
        Seq::empty()
    }
}

/// The example items of node `j`, a `Collocate` with an id and a name.
pub open spec fn collocate_at(d: Seq<DomView>, c: EntryCtx, j: int) -> Seq<ItemView> {
    if d[j].kind == DomKind::Element && d[j].name == "Collocate"@ && node_attr(d[j], "id"@) is Some
        && colloc_texts(d, j).len() > 0 {
        let title = join_with(colloc_texts(d, j), ", "@);
        gather(j, sub_end(d, j), |k: int| collexa_at(d, c, j, title, k))
    } else {
        Seq::empty()
    }
}

/// The example item of node `k`, a `THESEXA` of a thesaurus exponent at
/// `path`.
pub open spec fn thesexa_at(d: Seq<DomView>, c: EntryCtx, path: Seq<char>, k: int) -> Seq<ItemView> {
    if d[k].kind == DomKind::Element && d[k].name == "THESEXA"@ {
        match crate::indexer::dom::find_desc(d, k, "BASE"@) {
            Some(b) => if collected_text(d, b).len() > 0 {
                seq![item("e"@, c.hwd_label, path, collected_text(d, b), c.hwd_base, 20)]
            } else {
                Seq::empty()
            },
            None => Seq::empty(),
        }
    } else {
        Seq::empty()
    }
}

/// The definition item of node `k`, a `DEF`, at `path`.
pub open spec fn def_item_at(d: Seq<DomView>, c: EntryCtx, path: Seq<char>, k: int) -> Seq<ItemView> {
    if d[k].kind == DomKind::Element && d[k].name == "DEF"@ && collected_text(d, k).len() > 0 {
        seq![item("d"@, c.hwd_label, path, collected_text(d, k), c.hwd_base, 30)]
    } else {
        Seq::empty()
    }
}

/// The items of node `j`, a thesaurus `Exponent` with an id: its examples,
/// then its definitions.
pub open spec fn exponent_at(d: Seq<DomView>, c: EntryCtx, j: int) -> Seq<ItemView> {
    if d[j].kind == DomKind::Element && d[j].name == "Exponent"@ && node_attr(d[j], "id"@) is Some {
        let path = elem_path(d, c, j);
        gather(j, sub_end(d, j), |k: int| thesexa_at(d, c, path, k)) + gather(
            j,
            sub_end(d, j),
            |k: int| def_item_at(d, c, path, k),
        )
    } else {
        Seq::empty()
    }
}

/// The text of node `k`, a `COLLOINEXA` with text, as a list.
pub open spec fn co_text_at(d: Seq<DomView>, k: int) -> Seq<Seq<char>> {
    if d[k].kind == DomKind::Element && d[k].name == "COLLOINEXA"@ && collected_text(d, k).len() > 0 {
        seq![collected_text(d, k)]
    } else {
        Seq::empty()
    }
}

/// The collocation item of the `COLLOINEXA` elements of an example's
/// `BASE` `b`, at `path`.
pub open spec fn co_items(d: Seq<DomView>, c: EntryCtx, b: int, path: Seq<char>) -> Seq<ItemView> {
    let cs = gather(b, sub_end(d, b), |k: int| co_text_at(d, k));
    if cs.len() == 0 {
        Seq::empty()
    } else {
        let plain = join_with(cs, " "@);
        seq![item("p"@, "<c><o>"@ + join_with(cs, " &hellip; "@) + "</o> ("@ + c.hwdlabel + ")</c>"@, path, plain, plain, 15)]
    }
}

/// The items of node `j`, an `EXAMPLE`: the example, then its
/// collocations.
pub open spec fn example_at(d: Seq<DomView>, c: EntryCtx, j: int) -> Seq<ItemView> {
    if d[j].kind == DomKind::Element && d[j].name == "EXAMPLE"@ {
        match crate::indexer::dom::find_desc(d, j, "BASE"@) {
            Some(b) => {
                let t = collapse(join_with(base_parts(d, b, false), " "@));
                if t.len() == 0 {
                    Seq::empty()
                } else {
                    let path = elem_path(d, c, j);
                    seq![item("e"@, c.hwd_label, path, t, c.hwd_base, 20)] + co_items(d, c, b, path)
                }
            },
            None => Seq::empty(),
        }
    } else {
        Seq::empty()
    }
}

/// The kinds of element that give index items, in the order their items
/// come.
#[derive(Debug, Clone, Copy, PartialEq, Eq, Structural)]
pub enum Pass {
    PhrasalVerb,
    RunOn,
    LexUnit,
    PropForm,
    PropFormPrep,
    Collo,
    Colloc,
    Collocate,
    Exponent,
    Definition,
    Example,
}

/// The items that node `j` gives in pass `p`.
pub open spec fn pass_at(d: Seq<DomView>, c: EntryCtx, p: Pass, j: int) -> Seq<ItemView> {
    match p {
        Pass::PhrasalVerb => hp_at(d, c, j),
        Pass::RunOn => runon_at(d, c, j),
        Pass::LexUnit => lexunit_at(d, c, j),
        Pass::PropForm => phrase_at(d, c, j, "PROPFORM"@, false),
        Pass::PropFormPrep => phrase_at(d, c, j, "PROPFORMPREP"@, false),
        Pass::Collo => phrase_at(d, c, j, "COLLO"@, true),
        Pass::Colloc => phrase_at(d, c, j, "COLLOC"@, true),
        Pass::Collocate => collocate_at(d, c, j),
        Pass::Exponent => exponent_at(d, c, j),
        Pass::Definition => def_item_at(d, c, elem_path(d, c, j), j),
        Pass::Example => example_at(d, c, j),
    }
}

/// The items of pass `p` over the whole entry.
pub open spec fn pass_items(d: Seq<DomView>, c: EntryCtx, p: Pass) -> Seq<ItemView> {
    gather(0, sub_end(d, 0), |j: int| pass_at(d, c, p, j))
}

/// The index items of the entry read into `d`: the headword item, the
/// inflections, then the items of each pass in turn.
pub open spec fn entry_items(d: Seq<DomView>) -> Seq<ItemView> {
    if d.len() == 0 {
        Seq::empty()
    } else {
        let c = entry_ctx(d);
        seq![item("hm"@, c.hwd_label, c.path_root, collected_text(d, 0), c.hwd_base, 1)] + hv_items(d, c)
            + pass_items(d, c, Pass::PhrasalVerb) + pass_items(d, c, Pass::RunOn) + pass_items(d, c, Pass::LexUnit)
            + pass_items(d, c, Pass::PropForm) + pass_items(d, c, Pass::PropFormPrep) + pass_items(d, c, Pass::Collo)
            + pass_items(d, c, Pass::Colloc) + pass_items(d, c, Pass::Collocate) + pass_items(d, c, Pass::Exponent)
            + pass_items(d, c, Pass::Definition) + pass_items(d, c, Pass::Example)
    }
}

/// Adds one item.
fn push_one(items: &mut Vec<Item>, it: Item)
    ensures
        items_view(final(items)@) == items_view(old(items)@).push(item_view(it)),
{
    let ghost v0 = items_view(items@);
    items.push(it);
    assert(items_view(items@) =~= v0.push(item_view(it)));
}

/// `s` without stress marks.
fn unstressed_of(s: &str) -> (r: String)
    ensures
        r@ == unstressed(s@),
{
    let cs = chars_of(s);
    let mut r = String::new();
    let mut i: usize = 0;
    while i < cs.len()
        invariant
            i <= cs@.len(),
            cs@ == s@,
            r@ == unstressed(cs@.take(i as int)),
        decreases cs@.len() - i,
    {
        assert(cs@.take(i + 1).drop_last() =~= cs@.take(i as int));
        let ch = cs[i];
        if ch != '\u{02C8}' && ch != '\u{02CC}' {
            push_char(&mut r, ch);
        }
        i = i + 1;
    }
    assert(cs@.take(cs@.len() as int) =~= cs@);
    r
}

/// `s` without a leading "a " or "an ".
fn drop_article(s: String) -> (r: String)
    ensures
        r@ == without_article(s@),
{
    let n = s.as_str().unicode_len();
    if n >= 2 && crate::history::str_equal(s.as_str().substring_char(0, 2), "a ") {
        String::from_str(s.as_str().substring_char(2, n))
    } else if n >= 3 && crate::history::str_equal(s.as_str().substring_char(0, 3), "an ") {
        String::from_str(s.as_str().substring_char(3, n))
    } else {
        s
    }
}

/// The pieces of text of the `BASE` element `b`.
fn base_parts_of(d: &[DomNode], b: usize, only_colloinexa: bool) -> (r: Vec<String>)
    requires
        b < d@.len(),
    ensures
        strs_view(r@) == base_parts(dom_view(d@), b as int, only_colloinexa),
{
    let ghost dv = dom_view(d@);
    assert(dv[b as int] == node_view(d@[b as int]));
    let mut r: Vec<String> = Vec::new();
    match &d[b].text {
        Some(t) => r.push(t.clone()),
        None => {},
    }
    let ghost first = strs_view(r@);
    let ghost f = |k: int| child_part_at(dv, b as int, k, only_colloinexa);
    let e = sub_end_of(d, b);
    let mut k = b + 1;
    assert(first + gather(b + 1, k as int, f) =~= first);
    while k < e
        invariant
            b < k <= e <= d@.len(),
            dv == dom_view(d@),
            dv[b as int] == node_view(d@[b as int]),
            e == sub_end(dv, b as int),
            f == (|k: int| child_part_at(dv, b as int, k, only_colloinexa)),
            strs_view(r@) == first + gather(b + 1, k as int, f),
        decreases e - k,
    {
        assert(dv[k as int] == node_view(d@[k as int]));
        let ghost before = strs_view(r@);
        if d[b].depth < usize::MAX && d[k].depth == d[b].depth + 1 {
            if !only_colloinexa || crate::history::str_equal(d[k].name.as_str(), "COLLOINEXA") {
                r.push(collect_text(d, k));
            }
            match &d[k].tail {
                Some(t) => r.push(t.clone()),
                None => {},
            }
        }
        assert(strs_view(r@) =~= before + f(k as int));
        k = k + 1;
    }
    r
}

/// The names of the collocation of the `Collocate` `j`.
fn colloc_texts_of(d: &[DomNode], j: usize) -> (r: Vec<String>)
    requires
        j < d@.len(),
    ensures
        strs_view(r@) == colloc_texts(dom_view(d@), j as int),
{
    let ghost dv = dom_view(d@);
    assert(dv[j as int] == node_view(d@[j as int]));
    let ghost f = |k: int| colloc_text_at(dv, j as int, k);
    let e = sub_end_of(d, j);
    let mut r: Vec<String> = Vec::new();
    let mut k = j + 1;
    while k < e
        invariant
            j < k <= e <= d@.len(),
            dv == dom_view(d@),
            dv[j as int] == node_view(d@[j as int]),
            f == (|k: int| colloc_text_at(dv, j as int, k)),
            strs_view(r@) == gather(j + 1, k as int, f),
        decreases e - k,
    {
        assert(dv[k as int] == node_view(d@[k as int]));
        let ghost before = strs_view(r@);
        if d[j].depth < usize::MAX && d[k].depth == d[j].depth + 1 && d[k].kind == DomKind::Element && (
        crate::history::str_equal(d[k].name.as_str(), "COLLOC") || crate::history::str_equal(
            d[k].name.as_str(),
            "LEXVAR",
        ) || crate::history::str_equal(d[k].name.as_str(), "ORTHVAR")) {
            let t = collect_text(d, k);
            if t.as_str().unicode_len() > 0 {
                r.push(t);
            }
        }
        assert(strs_view(r@) =~= before + f(k as int));
        k = k + 1;
    }
    r
}

/// The texts of the `COLLOINEXA` elements with text in the subtree of `b`.
fn co_texts_of(d: &[DomNode], b: usize) -> (r: Vec<String>)
    requires
        b < d@.len(),
    ensures
        strs_view(r@) == gather(b as int, sub_end(dom_view(d@), b as int), |k: int| co_text_at(dom_view(d@), k)),
{
    let ghost dv = dom_view(d@);
    let ghost f = |k: int| co_text_at(dv, k);
    let e = sub_end_of(d, b);
    let mut r: Vec<String> = Vec::new();
    let mut k = b;
    while k < e
        invariant
            b <= k <= e <= d@.len(),
            dv == dom_view(d@),
            f == (|k: int| co_text_at(dv, k)),
            strs_view(r@) == gather(b as int, k as int, f),
        decreases e - k,
    {
        let ghost before = strs_view(r@);
        if is_elem(d, k, "COLLOINEXA") {
            let t = collect_text(d, k);
            if t.as_str().unicode_len() > 0 {
                r.push(t);
            }
        }
        assert(strs_view(r@) =~= before + f(k as int));
        k = k + 1;
    }
    r
}

/// Adds the example items of the `Collocate` `j` titled `title`.
fn push_collocate(d: &[DomNode], c: &Ctx, j: usize, title: &String, items: &mut Vec<Item>)
    requires
        j < d@.len(),
    ensures
        items_view(final(items)@) == items_view(old(items)@) + gather(
            j as int,
            sub_end(dom_view(d@), j as int),
            |k: int| collexa_at(dom_view(d@), c.view(), j as int, title@, k),
        ),
{
    let ghost dv = dom_view(d@);
    let ghost cv = c.view();
    let ghost f = |k: int| collexa_at(dv, cv, j as int, title@, k);
    let ghost i0 = items_view(items@);
    let e = sub_end_of(d, j);
    let mut k = j;
    assert(i0 + gather(j as int, j as int, f) =~= i0);
    while k < e
        invariant
            j <= k <= e <= d@.len(),
            dv == dom_view(d@),
            cv == c.view(),
            e == sub_end(dv, j as int),
            f == (|k: int| collexa_at(dv, cv, j as int, title@, k)),
            items_view(items@) == i0 + gather(j as int, k as int, f),
        decreases e - k,
    {
        let ghost before = items_view(items@);
        if is_elem(d, k, "ColloExa") {
            match find_desc_of(d, k, "BASE") {
                Some(b) => {
                    let parts = base_parts_of(d, b, true);
                    let joined = join_strs(&parts, " ");
                    let t = collapse_space(joined.as_str());
                    if t.as_str().unicode_len() > 0 {
                        let mut label = c.hwd_label.clone();
                        label.append(" &mdash; <b>");
                        label.append(title.as_str());
                        label.append("</b>");
                        let path = path_of(d, c, j);
                        push_one(items, make_item("e", label, path, t, c.hwd_base.clone(), 20));
                    }
                },
                None => {},
            }
        }
        assert(items_view(items@) =~= before + f(k as int));
        assert(i0 + gather(j as int, k + 1, f) =~= i0 + gather(j as int, k as int, f) + f(k as int));
        k = k + 1;
    }
}

/// Adds the items of the thesaurus `Exponent` `j` at `path`.
fn push_exponent(d: &[DomNode], c: &Ctx, j: usize, path: &String, items: &mut Vec<Item>)
    requires
        j < d@.len(),
    ensures
        items_view(final(items)@) == items_view(old(items)@) + gather(
            j as int,
            sub_end(dom_view(d@), j as int),
            |k: int| thesexa_at(dom_view(d@), c.view(), path@, k),
        ) + gather(j as int, sub_end(dom_view(d@), j as int), |k: int| def_item_at(dom_view(d@), c.view(), path@, k)),
{
    let ghost dv = dom_view(d@);
    let ghost cv = c.view();
    let ghost f = |k: int| thesexa_at(dv, cv, path@, k);
    let ghost g = |k: int| def_item_at(dv, cv, path@, k);
    let ghost i0 = items_view(items@);
    let e = sub_end_of(d, j);
    let mut k = j;
    assert(i0 + gather(j as int, j as int, f) =~= i0);
    while k < e
        invariant
            j <= k <= e <= d@.len(),
            dv == dom_view(d@),
            cv == c.view(),
            e == sub_end(dv, j as int),
            f == (|k: int| thesexa_at(dv, cv, path@, k)),
            items_view(items@) == i0 + gather(j as int, k as int, f),
        decreases e - k,
    {
        let ghost before = items_view(items@);
        if is_elem(d, k, "THESEXA") {
            match find_desc_of(d, k, "BASE") {
                Some(b) => {
                    let t = collect_text(d, b);
                    if t.as_str().unicode_len() > 0 {
                        push_one(items, make_item("e", c.hwd_label.clone(), path.clone(), t, c.hwd_base.clone(), 20));
                    }
                },
                None => {},
            }
        }
        assert(items_view(items@) =~= before + f(k as int));
        assert(i0 + gather(j as int, k + 1, f) =~= i0 + gather(j as int, k as int, f) + f(k as int));
        k = k + 1;
    }
    let ghost i1 = items_view(items@);
    let mut k = j;
    assert(i1 + gather(j as int, j as int, g) =~= i1);
    while k < e
        invariant
            j <= k <= e <= d@.len(),
            dv == dom_view(d@),
            cv == c.view(),
            g == (|k: int| def_item_at(dv, cv, path@, k)),
            items_view(items@) == i1 + gather(j as int, k as int, g),
        decreases e - k,
    {
        let ghost before = items_view(items@);
        if is_elem(d, k, "DEF") {
            let t = collect_text(d, k);
            if t.as_str().unicode_len() > 0 {
                push_one(items, make_item("d", c.hwd_label.clone(), path.clone(), t, c.hwd_base.clone(), 30));
            }
        }
        assert(items_view(items@) =~= before + g(k as int));
        assert(i1 + gather(j as int, k + 1, g) =~= i1 + gather(j as int, k as int, g) + g(k as int));
        k = k + 1;
    }
}

/// Adds the items of the `EXAMPLE` `j`.
fn push_example(d: &[DomNode], c: &Ctx, j: usize, items: &mut Vec<Item>)
    requires
        j < d@.len(),
    ensures
        items_view(final(items)@) == items_view(old(items)@) + example_at(dom_view(d@), c.view(), j as int),
{
    let ghost dv = dom_view(d@);
    let ghost i0 = items_view(items@);
    if !is_elem(d, j, "EXAMPLE") {
        assert(items_view(items@) =~= i0 + example_at(dv, c.view(), j as int));
        return;
    }
    match find_desc_of(d, j, "BASE") {
        Some(b) => {
            let parts = base_parts_of(d, b, false);
            let joined = join_strs(&parts, " ");
            let t = collapse_space(joined.as_str());
            if t.as_str().unicode_len() == 0 {
                assert(items_view(items@) =~= i0 + example_at(dv, c.view(), j as int));
                return;
            }
            let path = path_of(d, c, j);
            push_one(items, make_item("e", c.hwd_label.clone(), path.clone(), t, c.hwd_base.clone(), 20));
            let cs = co_texts_of(d, b);
            if cs.len() > 0 {
                let plain = join_strs(&cs, " ");
                let shown = join_strs(&cs, " &hellip; ");
                let mut label = cat3("<c><o>", shown.as_str(), "</o> (");
                label.append(c.hwdlabel.as_str());
                label.append(")</c>");
                push_one(items, make_item("p", label, path, plain.clone(), plain, 15));
            }
            assert(items_view(items@) =~= i0 + example_at(dv, c.view(), j as int));
        },
        None => {
            assert(items_view(items@) =~= i0 + example_at(dv, c.view(), j as int));
        },
    }
}

/// Adds the items that node `j` gives in pass `p`.
#[verifier::rlimit(40)]
fn push_pass_at(d: &[DomNode], c: &Ctx, p: Pass, j: usize, items: &mut Vec<Item>)
    requires
        j < d@.len(),
    ensures
        items_view(final(items)@) == items_view(old(items)@) + pass_at(dom_view(d@), c.view(), p, j as int),
{
    let ghost dv = dom_view(d@);
    let ghost cv = c.view();
    let ghost i0 = items_view(items@);
    match p {
        Pass::PhrasalVerb => {
            if is_elem(d, j, "PhrVbEntry") {
                match find_desc_of(d, j, "PHRVBHWD") {
                    Some(q) => {
                        let plain = collect_text(d, q);
                        if plain.as_str().unicode_len() > 0 {
                            let label = cat3("<h><pv>", plain.as_str(), "</pv> <p>phrasal verb</p></h>");
                            let path = path_of(d, c, j);
                            push_one(items, make_item("hp", label, path, plain.clone(), plain, 1));
                        }
                    },
                    None => {},
                }
            }
        },
        Pass::RunOn => {
            if is_elem(d, j, "RunOn") {
                match find_desc_of(d, j, "DERIV") {
                    Some(v) => match find_desc_of(d, v, "BASE") {
                        Some(b) => {
                            let t = collect_text(d, b);
                            let plain = unstressed_of(t.as_str());
                            if plain.as_str().unicode_len() > 0 {
                                let ps = desc_texts_of(d, j, "POS");
                                let pos = join_strs(&ps, ", ");
                                let label = if pos.as_str().unicode_len() == 0 {
                                    cat3("<h><n>", plain.as_str(), "</n></h>")
                                } else {
                                    let mut l = cat3("<h><n>", plain.as_str(), "</n> <p>");
                                    l.append(pos.as_str());
                                    l.append("</p></h>");
                                    l
                                };
                                let path = path_of(d, c, v);
                                push_one(items, make_item("hm", label, path, plain.clone(), plain, 1));
                            }
                        },
                        None => {},
                    },
                    None => {},
                }
            }
        },
        Pass::LexUnit => {
            if is_elem(d, j, "LEXUNIT") && has_id(d, j) {
                let plain = collect_text(d, j);
                if plain.as_str().unicode_len() > 0 {
                    let mut label = cat3("<l><o>", plain.as_str(), "</o> (");
                    label.append(c.hwdlabel.as_str());
                    label.append(")</l>");
                    let path = path_of(d, c, j);
                    push_one(items, make_item("pl", label, path, plain.clone(), plain, 9));
                }
            }
        },
        Pass::PropForm | Pass::PropFormPrep | Pass::Collo | Pass::Colloc => {
            let tag = match p {
                Pass::PropForm => "PROPFORM",
                Pass::PropFormPrep => "PROPFORMPREP",
                Pass::Collo => "COLLO",
                _ => "COLLOC",
            };
            let drop = match p {
                Pass::Collo | Pass::Colloc => true,
                _ => false,
            };
            if is_elem(d, j, tag) && has_id(d, j) {
                let t = collect_text(d, j);
                let plain = if drop {
                    drop_article(t)
                } else {
                    t
                };
                if plain.as_str().unicode_len() > 0 {
                    let mut label = cat3("<c><o>", plain.as_str(), "</o> (");
                    label.append(c.hwdlabel.as_str());
                    label.append(")</c>");
                    let path = path_of(d, c, j);
                    push_one(items, make_item("p", label, path, plain.clone(), plain, 10));
                }
            }
        },
        Pass::Collocate => {
            if is_elem(d, j, "Collocate") && has_id(d, j) {
                let ts = colloc_texts_of(d, j);
                if ts.len() > 0 {
                    let title = join_strs(&ts, ", ");
                    push_collocate(d, c, j, &title, items);
                }
            }
        },
        Pass::Exponent => {
            if is_elem(d, j, "Exponent") && has_id(d, j) {
                let path = path_of(d, c, j);
                push_exponent(d, c, j, &path, items);
            }
        },
        Pass::Definition => {
            if is_elem(d, j, "DEF") {
                let t = collect_text(d, j);
                if t.as_str().unicode_len() > 0 {
                    let path = path_of(d, c, j);
                    push_one(items, make_item("d", c.hwd_label.clone(), path, t, c.hwd_base.clone(), 30));
                }
            }
        },
        Pass::Example => {
            push_example(d, c, j, items);
        },
    }
    assert(items_view(items@) =~= i0 + pass_at(dv, cv, p, j as int));
}

/// Adds the items of pass `p` over the whole entry.
fn push_pass(d: &[DomNode], c: &Ctx, p: Pass, items: &mut Vec<Item>)
    requires
        d@.len() > 0,
    ensures
        items_view(final(items)@) == items_view(old(items)@) + pass_items(dom_view(d@), c.view(), p),
{
    let ghost dv = dom_view(d@);
    let ghost cv = c.view();
    let ghost f = |j: int| pass_at(dv, cv, p, j);
    let ghost i0 = items_view(items@);
    let e = sub_end_of(d, 0);
    let mut j: usize = 0;
    assert(i0 + gather(0, 0, f) =~= i0);
    while j < e
        invariant
            j <= e <= d@.len(),
            dv == dom_view(d@),
            cv == c.view(),
            e == sub_end(dv, 0),
            f == (|j: int| pass_at(dv, cv, p, j)),
            items_view(items@) == i0 + gather(0, j as int, f),
        decreases e - j,
    {
        push_pass_at(d, c, p, j, items);
        assert(i0 + gather(0, j + 1, f) =~= i0 + gather(0, j as int, f) + f(j as int));
        j = j + 1;
    }
}

/// Adds the inflection items of the headword.
fn push_inflections(d: &[DomNode], c: &Ctx, items: &mut Vec<Item>)
    requires
        d@.len() > 0,
    ensures
        items_view(final(items)@) == items_view(old(items)@) + hv_items(dom_view(d@), c.view()),
{
    let ghost dv = dom_view(d@);
    let ghost cv = c.view();
    let ghost i0 = items_view(items@);
    let h = match find_desc_of(d, 0, "Head") {
        Some(h) => h,
        None => {
            assert(items_view(items@) =~= i0 + hv_items(dv, cv));
            return;
        },
    };
    let w = match first_child_of(d, h, "HWD") {
        Some(w) => w,
        None => {
            assert(items_view(items@) =~= i0 + hv_items(dv, cv));
            return;
        },
    };
    let ghost f = |j: int| hv_at(dv, cv, j);
    let e = sub_end_of(d, w);
    let mut j = w;
    assert(i0 + gather(w as int, w as int, f) =~= i0);
    while j < e
        invariant
            w <= j <= e <= d@.len(),
            dv == dom_view(d@),
            cv == c.view(),
            f == (|j: int| hv_at(dv, cv, j)),
            items_view(items@) == i0 + gather(w as int, j as int, f),
        decreases e - j,
    {
        let ghost before = items_view(items@);
        if is_elem(d, j, "INFLX") {
            let plain = collect_text(d, j);
            if plain.as_str().unicode_len() > 0 && !crate::history::str_equal(plain.as_str(), c.hwd_base.as_str()) {
                let mut label = cat3("<h><v>", plain.as_str(), "</v> &rarr; ");
                label.append(c.hwdlabel.as_str());
                label.append("</h>");
                push_one(items, make_item("hv", label, c.path_root.clone(), plain.clone(), plain, 2));
            }
        }
        assert(items_view(items@) =~= before + f(j as int));
        assert(i0 + gather(w as int, j + 1, f) =~= i0 + gather(w as int, j as int, f) + f(j as int));
        j = j + 1;
    }
}

/// The index items of the entry read into `d`.
pub fn items_of_dom(d: &[DomNode]) -> (r: Vec<Item>)
    ensures
        items_view(r@) == entry_items(dom_view(d@)),
{
    let ghost dv = dom_view(d@);
    let mut items: Vec<Item> = Vec::new();
    if d.len() == 0 {
        assert(items_view(items@) =~= entry_items(dv));
        return items;
    }
    let c = make_ctx(d);
    let all = collect_text(d, 0);
    push_one(&mut items, make_item("hm", c.hwd_label.clone(), c.path_root.clone(), all, c.hwd_base.clone(), 1));
    push_inflections(d, &c, &mut items);
    push_pass(d, &c, Pass::PhrasalVerb, &mut items);
    push_pass(d, &c, Pass::RunOn, &mut items);
    push_pass(d, &c, Pass::LexUnit, &mut items);
    push_pass(d, &c, Pass::PropForm, &mut items);
    push_pass(d, &c, Pass::PropFormPrep, &mut items);
    push_pass(d, &c, Pass::Collo, &mut items);
    push_pass(d, &c, Pass::Colloc, &mut items);
    push_pass(d, &c, Pass::Collocate, &mut items);
    push_pass(d, &c, Pass::Exponent, &mut items);
    push_pass(d, &c, Pass::Definition, &mut items);
    push_pass(d, &c, Pass::Example, &mut items);
    assert(items_view(items@) =~= entry_items(dv));
    items
}

/// Why an entry gives no items.
#[derive(Debug, Clone, Copy, PartialEq, Eq, Structural)]
pub enum ExtractError {
    /// The entry is not UTF-8.
    NotUtf8,
    /// The entry is not well-formed XML.
    Parse,
}

impl ExtractError {
    /// The message of the error.
    pub fn to_string(&self) -> (r: String)
        ensures
            r@ == (match self {
                ExtractError::NotUtf8 => "entry not utf8"@,
                ExtractError::Parse => "parse xml"@,
            }),
    {
        match self {
            ExtractError::NotUtf8 => String::from_str("entry not utf8"),
            ExtractError::Parse => String::from_str("parse xml"),
        }
    }
}

/// The index items of a dictionary entry stored as `entry_data`, and its
/// spelling variations (none are read from entries). The entry must be
/// UTF-8 and well-formed XML.
pub fn extract_items_from_entry(entry_data: &[u8]) -> (r: Result<(Vec<Item>, HashMap<String, Vec<String>>), ExtractError>)
    ensures
        !vstd::utf8::valid_utf8(entry_data@) ==> r == Err::<(Vec<Item>, HashMap<String, Vec<String>>), ExtractError>(
            ExtractError::NotUtf8,
        ),
        vstd::utf8::valid_utf8(entry_data@) ==> match spec_parse_dom(vstd::utf8::decode_utf8(entry_data@)) {
            Some(d) => r matches Ok((items, vars)) && items_view(items@) == entry_items(d) && vars@ == Map::<
                String,
                Vec<String>,
            >::empty(),
            None => r == Err::<(Vec<Item>, HashMap<String, Vec<String>>), ExtractError>(ExtractError::Parse),
        },
{
    let xml = match str_from_utf8(entry_data) {
        Some(x) => x,
        None => {
            return Err(ExtractError::NotUtf8);
        },
    };
    let nodes = match parse_dom(xml.as_str()) {
        Some(n) => n,
        None => {
            return Err(ExtractError::Parse);
        },
    };
    let items = items_of_dom(nodes.as_slice());
    Ok((items, HashMap::new()))
}

} // verus!
