//! The parts of a full-text search that do not touch the index: which
//! clauses a query holds, how many documents it may return, and the order
//! in which the results are listed.

use vstd::prelude::*;

use crate::search::ranking::{keys_view, stable_order, stably_sorted};
use crate::text::chars_of;

verus! {

/// One hit of a full-text search.
#[derive(Debug, Clone)]
pub struct FulltextResult {
    pub label: String,
    pub path: String,
    pub sortkey: String,
    pub prio: u64,
    pub highlight: Option<String>,
}

/// The plain values of a hit: (label, path, sort key, priority,
/// highlight).
pub open spec fn fulltext_view(r: FulltextResult) -> (Seq<char>, Seq<char>, Seq<char>, u64, Option<Seq<char>>) {
    (r.label@, r.path@, r.sortkey@, r.prio, match r.highlight {
        Some(h) => Some(h@),
        None => None,
    })
}

/// The plain values of a list of hits.
pub open spec fn fulltext_views(v: Seq<FulltextResult>) -> Seq<(Seq<char>, Seq<char>, Seq<char>, u64, Option<Seq<char>>)> {
    v.map_values(|r: FulltextResult| fulltext_view(r))
}

/// The most documents a search returns.
pub const MAX_HITS: usize = 10000;

/// The clauses of a full-text query: the content query, if one is given;
/// the item types of which a hit must have one, if any; the filter query,
/// if one is given; and the number of documents to collect.
#[derive(Debug, Clone)]
pub struct FulltextQuery {
    pub content: Option<String>,
    pub itemtypes: Vec<String>,
    pub asfilter: Option<String>,
    pub cap: usize,
}

/// A query text that is given and not empty.
pub open spec fn given(q: Option<&str>) -> Option<Seq<char>> {
    match q {
        Some(s) => if s@.len() > 0 {
            Some(s@)
        } else {
            None
        },
        None => None,
    }
}

fn given_string(q: Option<&str>) -> (r: Option<String>)
    ensures
        match given(q) {
            Some(s) => r matches Some(x) && x@ == s,
            None => r is None,
        },
{
    match q {
        Some(s) => if s.unicode_len() > 0 {
            Some(String::from_str(s))
        } else {
            None
        },
        None => None,
    }
}

/// The clauses of the search for `query_str` among the item types
/// `itemtypes` with the filter `asfilter_q`, returning at most `limit`
/// documents (at most [`MAX_HITS`] in any case).
pub fn plan_fulltext_query(
    query_str: Option<&str>,
    itemtypes: &[&str],
    asfilter_q: Option<&str>,
    limit: Option<usize>,
) -> (r: FulltextQuery)
    ensures
        match given(query_str) {
            Some(s) => r.content matches Some(x) && x@ == s,
            None => r.content is None,
        },
        r.itemtypes@.map_values(|t: String| t@) == itemtypes@.map_values(|t: &str| t@),
        match given(asfilter_q) {
            Some(s) => r.asfilter matches Some(x) && x@ == s,
            None => r.asfilter is None,
        },
        r.cap == match limit {
            Some(l) => if l < MAX_HITS {
                l
            } else {
                MAX_HITS
            },
            None => MAX_HITS,
        },
{
    let mut types: Vec<String> = Vec::new();
    let mut i: usize = 0;
    while i < itemtypes.len()
        invariant
            i <= itemtypes@.len(),
            types@.map_values(|t: String| t@) == itemtypes@.take(i as int).map_values(|t: &str| t@),
        decreases itemtypes@.len() - i,
    {
        let ghost prev = types@;
        let t = String::from_str(itemtypes[i]);
        types.push(t);
        i = i + 1;
        assert(itemtypes@.take(i as int) =~= itemtypes@.take(i - 1).push(itemtypes@[i - 1]));
        assert(types@ =~= prev.push(t));
        assert(types@.map_values(|t: String| t@) =~= prev.map_values(|t: String| t@).push(t@));
        assert(types@.map_values(|t: String| t@) =~= itemtypes@.take(i as int).map_values(|t: &str| t@));
    }
    assert(itemtypes@.take(itemtypes@.len() as int) =~= itemtypes@);
    let cap = match limit {
        Some(l) => if l < MAX_HITS {
            l
        } else {
            MAX_HITS
        },
        None => MAX_HITS,
    };
    FulltextQuery {
        content: given_string(query_str),
        itemtypes: types,
        asfilter: given_string(asfilter_q),
        cap,
    }
}

/// The sort keys of the hits.
pub open spec fn hit_keys(v: Seq<FulltextResult>) -> Seq<Seq<char>> {
    v.map_values(|r: FulltextResult| r.sortkey@)
}

/// The priorities of the hits.
pub open spec fn hit_prios(v: Seq<FulltextResult>) -> Seq<u64> {
    v.map_values(|r: FulltextResult| r.prio)
}

/// No hit is an exact match: hits are ordered by key and priority alone.
pub open spec fn no_exact(n: int) -> Seq<bool> {
    Seq::new(n as nat, |i: int| false)
}

fn clone_hit(r: &FulltextResult) -> (c: FulltextResult)
    ensures
        fulltext_view(c) == fulltext_view(*r),
{
    FulltextResult {
        label: r.label.clone(),
        path: r.path.clone(),
        sortkey: r.sortkey.clone(),
        prio: r.prio,
        highlight: match &r.highlight {
            Some(h) => Some(h.clone()),
            None => None,
        },
    }
}

/// The hits sorted by sort key, then priority; hits that tie keep their
/// order.
pub fn sort_fulltext_results(hits: Vec<FulltextResult>) -> (r: Vec<FulltextResult>)
    ensures
        exists|p: Seq<usize>|
            stably_sorted(no_exact(hits@.len() as int), hit_keys(hits@), hit_prios(hits@), p)
                && #[trigger] fulltext_views(r@) == p.map_values(|k: usize| fulltext_view(hits@[k as int])),
{
    let n = hits.len();
    let mut keys: Vec<Vec<char>> = Vec::new();
    let mut exact: Vec<bool> = Vec::new();
    let mut prios: Vec<u64> = Vec::new();
    let mut i: usize = 0;
    while i < n
        invariant
            n == hits@.len(),
            i <= n,
            keys@.len() == i,
            exact@.len() == i,
            prios@.len() == i,
            forall|k: int| 0 <= k < i ==> (#[trigger] keys@[k])@ == hits@[k].sortkey@,
            forall|k: int| 0 <= k < i ==> !#[trigger] exact@[k],
            forall|k: int| 0 <= k < i ==> #[trigger] prios@[k] == hits@[k].prio,
        decreases n - i,
    {
        keys.push(chars_of(hits[i].sortkey.as_str()));
        exact.push(false);
        prios.push(hits[i].prio);
        i = i + 1;
    }
    let order = stable_order(&exact, &keys, &prios);
    proof {
        assert(keys_view(keys@) =~= hit_keys(hits@));
        assert(exact@ =~= no_exact(n as int));
        assert(prios@ =~= hit_prios(hits@));
    }
    let mut out: Vec<FulltextResult> = Vec::new();
    let mut k: usize = 0;
    while k < n
        invariant
            n == hits@.len(),
            k <= n,
            order@.len() == n,
            forall|j: int| 0 <= j < n ==> #[trigger] order@[j] < n,
            fulltext_views(out@) == order@.take(k as int).map_values(|j: usize| fulltext_view(hits@[j as int])),
        decreases n - k,
    {
        let c = clone_hit(&hits[order[k]]);
        let ghost prev = out@;
        out.push(c);
        k = k + 1;
        proof {
            assert(order@.take(k as int) =~= order@.take(k - 1).push(order@[k - 1]));
            assert(fulltext_views(out@) =~= fulltext_views(prev).push(fulltext_view(c)));
            assert(order@.take(k as int).map_values(|j: usize| fulltext_view(hits@[j as int]))
                =~= order@.take(k - 1).map_values(|j: usize| fulltext_view(hits@[j as int])).push(
                fulltext_view(hits@[order@[k - 1] as int]),
            ));
        }
    }
    proof {
        assert(order@.take(n as int) =~= order@);
    }
    out
}

} // verus!
