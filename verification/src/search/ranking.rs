//! The order in which incremental-search results are listed: exact matches
//! of the query first, then by sort key, then by priority; results that tie
//! keep the order in which the index returned them.

use vstd::prelude::*;

use crate::app::{clone_item, item_view, results_view};
use crate::content::types::{SearchResultItem, chars_equal};
use crate::search::incremental::{normalize_index_key, spec_normalize_index_key};
use crate::search::lexicographic::{chars_lt, lemma_seq_lt_irrefl, lemma_seq_lt_total, lemma_seq_lt_trans, seq_lt};
use crate::text::chars_of;

verus! {

/// An entry with exactness `ea`, key `ka` and priority `pa` sorts strictly
/// before one with `eb`, `kb` and `pb`: an exact entry before one that is
/// not; otherwise by key, then by priority.
pub open spec fn key_before(ea: bool, ka: Seq<char>, pa: u64, eb: bool, kb: Seq<char>, pb: u64) -> bool {
    (ea && !eb) || (ea == eb && (seq_lt(ka, kb) || (ka == kb && pa < pb)))
}

/// Entry number `a` comes strictly before entry number `b` in the stable
/// order of the parallel lists `ex`, `keys` and `prios`: it sorts before
/// it, or the two tie and `a` came first.
pub open spec fn stable_before(ex: Seq<bool>, keys: Seq<Seq<char>>, prios: Seq<u64>, a: int, b: int) -> bool {
    key_before(ex[a], keys[a], prios[a], ex[b], keys[b], prios[b]) || (!key_before(
        ex[b],
        keys[b],
        prios[b],
        ex[a],
        keys[a],
        prios[a],
    ) && a < b)
}

/// `p` lists each number below `n` exactly once.
pub open spec fn is_permutation(p: Seq<usize>, n: int) -> bool {
    &&& p.len() == n
    &&& forall|k: int| 0 <= k < n ==> #[trigger] p[k] < n
    &&& forall|i: int, j: int| 0 <= i < j < n ==> p[i] != p[j]
}

/// `p` orders the entries of the parallel lists `ex`, `keys` and `prios`
/// as a stable sort does.
pub open spec fn stably_sorted(ex: Seq<bool>, keys: Seq<Seq<char>>, prios: Seq<u64>, p: Seq<usize>) -> bool {
    &&& is_permutation(p, keys.len() as int)
    &&& forall|i: int, j: int|
        0 <= i < j < p.len() ==> stable_before(ex, keys, prios, #[trigger] p[i] as int, #[trigger] p[j] as int)
}

/// Sorting is by a strict weak order: irreflexive, transitive, and two
/// entries that sort neither way have equal exactness, keys and priorities.
proof fn lemma_key_before_order(
    ea: bool,
    ka: Seq<char>,
    pa: u64,
    eb: bool,
    kb: Seq<char>,
    pb: u64,
    ec: bool,
    kc: Seq<char>,
    pc: u64,
)
    ensures
        !key_before(ea, ka, pa, ea, ka, pa),
        key_before(ea, ka, pa, eb, kb, pb) ==> !key_before(eb, kb, pb, ea, ka, pa),
        key_before(ea, ka, pa, eb, kb, pb) && key_before(eb, kb, pb, ec, kc, pc) ==> key_before(
            ea,
            ka,
            pa,
            ec,
            kc,
            pc,
        ),
        !key_before(ea, ka, pa, eb, kb, pb) && !key_before(eb, kb, pb, ea, ka, pa) ==> ea == eb && ka
            == kb && pa == pb,
{
    lemma_seq_lt_irrefl(ka);
    lemma_seq_lt_total(ka, kb);
    lemma_seq_lt_total(kb, kc);
    lemma_seq_lt_total(ka, kc);
    if seq_lt(ka, kb) && seq_lt(kb, kc) {
        lemma_seq_lt_trans(ka, kb, kc);
    }
}

/// Whether the entry with exactness `ea`, key `ka` and priority `pa` sorts
/// before the one with `eb`, `kb` and `pb`.
fn sorts_before(ea: bool, ka: &[char], pa: u64, eb: bool, kb: &[char], pb: u64) -> (r: bool)
    ensures
        r == key_before(ea, ka@, pa, eb, kb@, pb),
{
    if ea && !eb {
        return true;
    }
    if ea != eb {
        return false;
    }
    proof {
        lemma_seq_lt_total(ka@, kb@);
    }
    if chars_lt(ka, kb) {
        true
    } else if chars_lt(kb, ka) {
        false
    } else {
        pa < pb
    }
}

/// The views of a list of character vectors.
pub open spec fn keys_view(keys: Seq<Vec<char>>) -> Seq<Seq<char>> {
    keys.map_values(|k: Vec<char>| k@)
}

/// The stable sort order of the entries of the parallel lists `exact`,
/// `keys` and `prios`, by an insertion sort.
pub fn stable_order(exact: &Vec<bool>, keys: &Vec<Vec<char>>, prios: &Vec<u64>) -> (r: Vec<usize>)
    requires
        exact@.len() == keys@.len(),
        prios@.len() == keys@.len(),
    ensures
        stably_sorted(exact@, keys_view(keys@), prios@, r@),
{
    let ghost ks = keys_view(keys@);
    let n = keys.len();
    let mut order: Vec<usize> = Vec::new();
    let mut i: usize = 0;
    while i < n
        invariant
            n == keys@.len(),
            exact@.len() == n,
            prios@.len() == n,
            ks == keys_view(keys@),
            i <= n,
            order@.len() == i,
            forall|k: int| 0 <= k < i ==> #[trigger] order@[k] < i,
            forall|a: int, b: int| 0 <= a < b < i ==> order@[a] != order@[b],
            forall|a: int, b: int|
                0 <= a < b < i ==> stable_before(exact@, ks, prios@, #[trigger] order@[a] as int, #[trigger] order@[b] as int),
        decreases n - i,
    {
        let mut p: usize = 0;
        while p < order.len()
            invariant
                n == keys@.len(),
                exact@.len() == n,
                prios@.len() == n,
                ks == keys_view(keys@),
                i < n,
                p <= order@.len(),
                order@.len() == i,
                forall|k: int| 0 <= k < i ==> #[trigger] order@[k] < i,
                forall|k: int|
                    0 <= k < p ==> !key_before(
                        exact@[i as int],
                        ks[i as int],
                        prios@[i as int],
                        exact@[#[trigger] order@[k] as int],
                        ks[order@[k] as int],
                        prios@[order@[k] as int],
                    ),
            ensures
                p <= order@.len(),
                p < order@.len() ==> key_before(
                    exact@[i as int],
                    ks[i as int],
                    prios@[i as int],
                    exact@[order@[p as int] as int],
                    ks[order@[p as int] as int],
                    prios@[order@[p as int] as int],
                ),
                forall|k: int|
                    0 <= k < p ==> !key_before(
                        exact@[i as int],
                        ks[i as int],
                        prios@[i as int],
                        exact@[#[trigger] order@[k] as int],
                        ks[order@[k] as int],
                        prios@[order@[k] as int],
                    ),
            decreases order@.len() - p,
        {
            let o = order[p];
            let b = sorts_before(exact[i], keys[i].as_slice(), prios[i], exact[o], keys[o].as_slice(), prios[o]);
            if b {
                break;
            }
            p = p + 1;
        }
        let ghost before = order@;
        order.insert(p, i);
        proof {
            assert(order@ =~= before.subrange(0, p as int).push(i).add(before.subrange(p as int, i as int)));
            assert forall|a: int, b: int| 0 <= a < b < i + 1 implies stable_before(
                exact@,
                ks,
                prios@,
                #[trigger] order@[a] as int,
                #[trigger] order@[b] as int,
            ) by {
                let x = order@[a] as int;
                let y = order@[b] as int;
                let ii = i as int;
                if b < p {
                    assert(order@[a] == before[a] && order@[b] == before[b]);
                } else if a > p {
                    assert(order@[a] == before[a - 1] && order@[b] == before[b - 1]);
                } else if a < p && b > p {
                    assert(order@[a] == before[a] && order@[b] == before[b - 1]);
                } else if b == p {
                    // an earlier entry that the new one does not sort before
                    assert(order@[a] == before[a]);
                } else {
                    // a == p: the new entry sorts before order[p], which
                    // comes before every later one
                    assert(order@[b] == before[b - 1]);
                    let z = before[p as int] as int;
                    assert(stable_before(exact@, ks, prios@, z, y) || b - 1 == p);
                    lemma_key_before_order(
                        exact@[ii], ks[ii], prios@[ii],
                        exact@[z], ks[z], prios@[z],
                        exact@[y], ks[y], prios@[y],
                    );
                    lemma_key_before_order(
                        exact@[z], ks[z], prios@[z],
                        exact@[y], ks[y], prios@[y],
                        exact@[ii], ks[ii], prios@[ii],
                    );
                }
            }
        }
        i = i + 1;
    }
    order
}

/// Whether each result's sort key equals the normalised query `q`.
pub open spec fn exact_flags(items: Seq<SearchResultItem>, q: Seq<char>) -> Seq<bool> {
    items.map_values(|r: SearchResultItem| r.sortkey@ == q)
}

/// The sort keys of the results.
pub open spec fn item_keys(items: Seq<SearchResultItem>) -> Seq<Seq<char>> {
    items.map_values(|r: SearchResultItem| r.sortkey@)
}

/// The priorities of the results.
pub open spec fn item_prios(items: Seq<SearchResultItem>) -> Seq<u64> {
    items.map_values(|r: SearchResultItem| r.prio as u64)
}

/// Lists `items` in rank order for `query`: results whose sort key equals
/// the normalised query first, then by sort key, then by priority; results
/// that tie keep their order.
pub fn rank_incremental_results(items: Vec<SearchResultItem>, query: &str) -> (r: Vec<SearchResultItem>)
    ensures
        exists|p: Seq<usize>|
            stably_sorted(
                exact_flags(items@, spec_normalize_index_key(query@)),
                item_keys(items@),
                item_prios(items@),
                p,
            ) && #[trigger] results_view(r@) == p.map_values(|k: usize| item_view(items@[k as int])),
{
    let norm = normalize_index_key(query);
    let ghost q = norm@;
    let n = items.len();
    let mut keys: Vec<Vec<char>> = Vec::new();
    let mut exact: Vec<bool> = Vec::new();
    let mut prios: Vec<u64> = Vec::new();
    let mut i: usize = 0;
    while i < n
        invariant
            n == items@.len(),
            i <= n,
            keys@.len() == i,
            exact@.len() == i,
            prios@.len() == i,
            q == norm@,
            forall|k: int| 0 <= k < i ==> (#[trigger] keys@[k])@ == items@[k].sortkey@,
            forall|k: int| 0 <= k < i ==> #[trigger] exact@[k] == (items@[k].sortkey@ == q),
            forall|k: int| 0 <= k < i ==> #[trigger] prios@[k] == items@[k].prio as u64,
        decreases n - i,
    {
        let kc = chars_of(items[i].sortkey.as_str());
        let e = chars_equal(kc.as_slice(), norm.as_str());
        keys.push(kc);
        exact.push(e);
        prios.push(items[i].prio as u64);
        i = i + 1;
    }
    let order = stable_order(&exact, &keys, &prios);
    proof {
        assert(keys_view(keys@) =~= item_keys(items@));
        assert(exact@ =~= exact_flags(items@, q));
        assert(prios@ =~= item_prios(items@));
    }
    let mut out: Vec<SearchResultItem> = Vec::new();
    let mut k: usize = 0;
    while k < n
        invariant
            n == items@.len(),
            k <= n,
            order@.len() == n,
            forall|j: int| 0 <= j < n ==> #[trigger] order@[j] < n,
            results_view(out@) == order@.take(k as int).map_values(|j: usize| item_view(items@[j as int])),
        decreases n - k,
    {
        let c = clone_item(&items[order[k]]);
        let ghost prev = out@;
        out.push(c);
        k = k + 1;
        proof {
            assert(order@.take(k as int) =~= order@.take(k - 1).push(order@[k - 1]));
            assert(results_view(out@) =~= results_view(prev).push(item_view(c)));
            assert(order@.take(k as int).map_values(|j: usize| item_view(items@[j as int]))
                =~= order@.take(k - 1).map_values(|j: usize| item_view(items@[j as int])).push(
                item_view(items@[order@[k - 1] as int]),
            ));
        }
    }
    proof {
        assert(order@.take(n as int) =~= order@);
    }
    out
}

} // verus!
